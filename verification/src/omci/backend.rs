//! The kernel data-path backend: which GEM paths the kernel should carry, how
//! its mapping attribute reads and is written, and the status it publishes.
//! The caller performs the attribute reads and writes; these functions decide.
use vstd::prelude::*;

use super::config::{decode_hex, spec_decode_hex, str_chars, trim, trim_bounds, HexError};
use super::provisioning::{DataPathCandidate, DATA_PATH_VLAN_ANY};
use super::text::{
    chars_equal, find_char, parse_unsigned, push_char, push_decimal, push_hex, push_text, spec_decimal, spec_hex,
    spec_hex_bytes, spec_parse_unsigned, first_index, spec_split, spec_split_once, spec_words, split, starts_with, word_views,
    words, hex_bytes, lemma_decimal_reads_back, lemma_hex_byte_reads_back, lemma_split_piece, lemma_split_end,
};
use vstd::utf8::encode_utf8;
use vstd::string::StringSliceAdditionalSpecFns;

verus! {

/// What the backend last did, for the status report.
pub struct BackendStatus {
    pub state: &'static str,
    pub active_alloc_id: Option<u16>,
    pub active_gem_id: Option<u16>,
    /// The installed unicast paths accept every VLAN.
    pub all_vlans: bool,
    pub error: Option<String>,
}

pub ghost struct BackendStatusView {
    pub state: Seq<char>,
    pub active_alloc_id: Option<u16>,
    pub active_gem_id: Option<u16>,
    pub all_vlans: bool,
    pub error: Option<Seq<char>>,
}

pub open spec fn text_view(text: Option<String>) -> Option<Seq<char>> {
    match text {
        Some(t) => Some(t@),
        None => None,
    }
}

impl View for BackendStatus {
    type V = BackendStatusView;

    open spec fn view(&self) -> BackendStatusView {
        BackendStatusView {
            state: self.state@,
            active_alloc_id: self.active_alloc_id,
            active_gem_id: self.active_gem_id,
            all_vlans: self.all_vlans,
            error: text_view(self.error),
        }
    }
}

/// The status before anything was installed.
pub open spec fn spec_initial_status() -> BackendStatusView {
    BackendStatusView {
        state: "waiting-for-gem"@,
        active_alloc_id: None,
        active_gem_id: None,
        all_vlans: false,
        error: None,
    }
}

impl Default for BackendStatus {
    fn default() -> (status: BackendStatus)
        ensures
            status@ == spec_initial_status(),
    {
        BackendStatus {
            state: "waiting-for-gem",
            active_alloc_id: None,
            active_gem_id: None,
            all_vlans: false,
            error: None,
        }
    }
}

fn copy_text(text: &Option<String>) -> (copy: Option<String>)
    ensures
        text_view(copy) == text_view(*text),
{
    match text {
        Some(t) => Some(t.clone()),
        None => None,
    }
}

impl BackendStatus {
    /// A copy of this status.
    pub fn duplicate(&self) -> (copy: BackendStatus)
        ensures
            copy@ == self@,
    {
        BackendStatus {
            state: self.state,
            active_alloc_id: self.active_alloc_id,
            active_gem_id: self.active_gem_id,
            all_vlans: self.all_vlans,
            error: copy_text(&self.error),
        }
    }
}

/// The first unicast path.
pub open spec fn first_unicast(paths: Seq<DataPathCandidate>) -> Option<DataPathCandidate>
    decreases paths.len(),
{
    if paths.len() == 0 {
        None
    } else if !paths[0].multicast {
        Some(paths[0])
    } else {
        first_unicast(paths.drop_first())
    }
}

pub open spec fn alloc_of(path: Option<DataPathCandidate>) -> Option<u16> {
    match path {
        Some(p) => Some(p.alloc_id),
        None => None,
    }
}

pub open spec fn gem_of(path: Option<DataPathCandidate>) -> Option<u16> {
    match path {
        Some(p) => Some(p.gem_id),
        None => None,
    }
}

/// The multicast paths, in order.
pub open spec fn multicast_paths(paths: Seq<DataPathCandidate>) -> Seq<DataPathCandidate>
    decreases paths.len(),
{
    if paths.len() == 0 {
        paths
    } else if paths.last().multicast {
        multicast_paths(paths.drop_last()).push(paths.last())
    } else {
        multicast_paths(paths.drop_last())
    }
}

/// The GEM ports of the unicast paths, each once, in order of first use.
pub open spec fn distinct_gems(paths: Seq<DataPathCandidate>) -> Seq<u16>
    decreases paths.len(),
{
    if paths.len() == 0 {
        Seq::empty()
    } else {
        let rest = distinct_gems(paths.drop_last());
        let p = paths.last();
        if !p.multicast && !rest.contains(p.gem_id) { rest.push(p.gem_id) } else { rest }
    }
}

/// Unicast path `i` cannot be told apart from an earlier one: it covers no
/// P-bit, or an earlier unicast path of its VLAN shares a P-bit with it.
pub open spec fn path_conflicts(paths: Seq<DataPathCandidate>, i: int) -> bool {
    &&& !paths[i].multicast
    &&& (paths[i].pbit_mask == 0 || exists|j: int|
        0 <= j < i && !(#[trigger] paths[j]).multicast && paths[i].pbit_mask & paths[j].pbit_mask != 0
            && paths[i].vlan_id == paths[j].vlan_id)
}

/// The paths to install for the snapshot's paths; `Err` carries the number of
/// distinct unicast GEM ports where their rules overlap. A single unicast GEM
/// takes every VLAN and P-bit, ahead of the multicast paths.
pub open spec fn spec_desired(paths: Seq<DataPathCandidate>) -> Result<Seq<DataPathCandidate>, nat> {
    let gems = distinct_gems(paths);
    if gems.len() == 1 {
        let unicast = first_unicast(paths).unwrap();
        Ok(seq![DataPathCandidate { vlan_id: DATA_PATH_VLAN_ANY, pbit_mask: 0xff, ..unicast }] + multicast_paths(paths))
    } else if gems.len() > 1 && exists|i: int| 0 <= i < paths.len() && #[trigger] path_conflicts(paths, i) {
        Err(gems.len())
    } else {
        Ok(paths)
    }
}

pub enum DesiredPaths {
    Paths { paths: Vec<DataPathCandidate> },
    Ambiguous { gem_count: usize },
}

proof fn lemma_first_unicast_step(paths: Seq<DataPathCandidate>, i: int)
    requires
        0 <= i < paths.len(),
        forall|k: int| 0 <= k < i ==> paths[k].multicast,
    ensures
        first_unicast(paths) == first_unicast(paths.skip(i)),
    decreases i,
{
    if i > 0 {
        assert(paths.drop_first().skip(i - 1) =~= paths.skip(i));
        assert(paths[0].multicast);
        assert forall|k: int| 0 <= k < i - 1 implies paths.drop_first()[k].multicast by {
            assert(paths[k + 1].multicast);
        }
        lemma_first_unicast_step(paths.drop_first(), i - 1);
    } else {
        assert(paths.skip(0) =~= paths);
    }
}

/// The first unicast path, if any.
fn find_unicast(paths: &Vec<DataPathCandidate>) -> (path: Option<DataPathCandidate>)
    ensures
        path == first_unicast(paths@),
{
    let mut i: usize = 0;
    while i < paths.len()
        invariant
            i <= paths@.len(),
            forall|k: int| 0 <= k < i ==> paths@[k].multicast,
        decreases paths@.len() - i,
    {
        if !paths[i].multicast {
            proof {
                lemma_first_unicast_step(paths@, i as int);
            }
            return Some(paths[i]);
        }
        i += 1;
    }
    proof {
        lemma_first_unicast_none(paths@);
    }
    None
}

proof fn lemma_first_unicast_none(paths: Seq<DataPathCandidate>)
    requires
        forall|k: int| 0 <= k < paths.len() ==> paths[k].multicast,
    ensures
        first_unicast(paths) is None,
    decreases paths.len(),
{
    if paths.len() > 0 {
        lemma_first_unicast_none(paths.drop_first());
    }
}

fn contains_gem(gems: &Vec<u16>, gem: u16) -> (found: bool)
    ensures
        found == gems@.contains(gem),
{
    let mut i: usize = 0;
    while i < gems.len()
        invariant
            i <= gems@.len(),
            forall|k: int| 0 <= k < i ==> gems@[k] != gem,
        decreases gems@.len() - i,
    {
        if gems[i] == gem {
            return true;
        }
        i += 1;
    }
    false
}

/// Which paths the kernel should carry for the snapshot's paths.
pub fn desired_paths(paths: &Vec<DataPathCandidate>) -> (desired: DesiredPaths)
    ensures
        match desired {
            DesiredPaths::Paths { paths: d } => spec_desired(paths@) == Ok::<Seq<DataPathCandidate>, nat>(d@),
            DesiredPaths::Ambiguous { gem_count } => spec_desired(paths@) == Err::<Seq<DataPathCandidate>, nat>(gem_count as nat),
        },
{
    let mut gems: Vec<u16> = Vec::new();
    let mut multicast: Vec<DataPathCandidate> = Vec::new();
    let mut i: usize = 0;
    while i < paths.len()
        invariant
            i <= paths@.len(),
            gems@ == distinct_gems(paths@.take(i as int)),
            multicast@ == multicast_paths(paths@.take(i as int)),
            gems@.len() <= i,
        decreases paths@.len() - i,
    {
        let p = paths[i];
        assert(paths@.take(i + 1).drop_last() =~= paths@.take(i as int));
        assert(paths@.take(i + 1).last() == p);
        if !p.multicast && !contains_gem(&gems, p.gem_id) {
            gems.push(p.gem_id);
        }
        if p.multicast {
            multicast.push(p);
        }
        i += 1;
    }
    assert(paths@.take(paths@.len() as int) =~= paths@);
    if gems.len() == 1 {
        let unicast = find_unicast(paths);
        proof {
            lemma_gems_need_unicast(paths@);
        }
        let unicast = unicast.unwrap();
        let mut desired: Vec<DataPathCandidate> = Vec::new();
        desired.push(DataPathCandidate { vlan_id: DATA_PATH_VLAN_ANY, pbit_mask: 0xff, ..unicast });
        let mut k: usize = 0;
        let ghost head = desired@;
        while k < multicast.len()
            invariant
                k <= multicast@.len(),
                desired@ == head + multicast@.take(k as int),
            decreases multicast@.len() - k,
        {
            desired.push(multicast[k]);
            assert(multicast@.take(k + 1) =~= multicast@.take(k as int).push(multicast@[k as int]));
            k += 1;
        }
        assert(multicast@.take(multicast@.len() as int) =~= multicast@);
        return DesiredPaths::Paths { paths: desired };
    }
    if gems.len() > 1 {
        let mut i: usize = 0;
        while i < paths.len()
            invariant
                i <= paths@.len(),
                gems@ == distinct_gems(paths@),
                gems@.len() > 1,
                forall|k: int| 0 <= k < i ==> !path_conflicts(paths@, k),
            decreases paths@.len() - i,
        {
            let p = paths[i];
            if !p.multicast {
                let mut conflict = p.pbit_mask == 0;
                let mut j: usize = 0;
                while j < i && !conflict
                    invariant
                        j <= i < paths@.len(),
                        p == paths@[i as int],
                        !p.multicast,
                        conflict == (p.pbit_mask == 0 || exists|m: int|
                            0 <= m < j && !(#[trigger] paths@[m]).multicast && p.pbit_mask & paths@[m].pbit_mask != 0
                                && p.vlan_id == paths@[m].vlan_id),
                    decreases i - j,
                {
                    let o = paths[j];
                    if !o.multicast && p.pbit_mask & o.pbit_mask != 0 && p.vlan_id == o.vlan_id {
                        conflict = true;
                    }
                    j += 1;
                }
                if conflict {
                    assert(path_conflicts(paths@, i as int));
                    return DesiredPaths::Ambiguous { gem_count: gems.len() };
                }
                assert(!path_conflicts(paths@, i as int));
            }
            i += 1;
        }
    }
    let copy = copy_paths(paths);
    DesiredPaths::Paths { paths: copy }
}

proof fn lemma_gems_need_unicast(paths: Seq<DataPathCandidate>)
    requires
        distinct_gems(paths).len() > 0,
    ensures
        first_unicast(paths) is Some,
    decreases paths.len(),
{
    if paths.len() > 0 {
        if first_unicast(paths) is None {
            lemma_no_unicast_no_gems(paths);
        }
    }
}

proof fn lemma_no_unicast_no_gems(paths: Seq<DataPathCandidate>)
    requires
        first_unicast(paths) is None,
    ensures
        distinct_gems(paths).len() == 0,
    decreases paths.len(),
{
    if paths.len() > 0 {
        lemma_first_unicast_tail(paths);
        lemma_no_unicast_no_gems(paths.drop_last());
        lemma_first_unicast_all(paths, paths.len() - 1);
    }
}

/// Without a unicast path, no path of `paths` is unicast.
proof fn lemma_first_unicast_all(paths: Seq<DataPathCandidate>, k: int)
    requires
        first_unicast(paths) is None,
        0 <= k < paths.len(),
    ensures
        paths[k].multicast,
    decreases k,
{
    if k > 0 {
        lemma_first_unicast_all(paths.drop_first(), k - 1);
    }
}

proof fn lemma_first_unicast_tail(paths: Seq<DataPathCandidate>)
    requires
        first_unicast(paths) is None,
        paths.len() > 0,
    ensures
        first_unicast(paths.drop_last()) is None,
{
    let t = paths.drop_last();
    assert forall|k: int| 0 <= k < t.len() implies t[k].multicast by {
        lemma_first_unicast_all(paths, k);
    }
    lemma_first_unicast_none(t);
}

fn copy_paths(paths: &Vec<DataPathCandidate>) -> (copy: Vec<DataPathCandidate>)
    ensures
        copy@ == paths@,
{
    let mut copy: Vec<DataPathCandidate> = Vec::new();
    let mut i: usize = 0;
    while i < paths.len()
        invariant
            i <= paths@.len(),
            copy@ == paths@.take(i as int),
        decreases paths@.len() - i,
    {
        copy.push(paths[i]);
        assert(paths@.take(i + 1) =~= paths@.take(i as int).push(paths@[i as int]));
        i += 1;
    }
    assert(paths@.take(paths@.len() as int) =~= paths@);
    copy
}

/// Why the kernel's data-path attribute could not be read as a mapping.
#[derive(Clone, Copy, Debug, PartialEq, Eq, Structural)]
pub enum MappingError {
    InvalidAllocId,
    InvalidGemId,
    InvalidVlanId,
    InvalidPbitMask,
    InvalidGemType,
    TooManyFields,
    NoPathEntries,
}

pub open spec fn spec_mapping_message(error: MappingError) -> Seq<char> {
    match error {
        MappingError::InvalidAllocId => "invalid alloc_id"@,
        MappingError::InvalidGemId => "invalid gem_id"@,
        MappingError::InvalidVlanId => "invalid vlan_id"@,
        MappingError::InvalidPbitMask => "invalid pbit mask"@,
        MappingError::InvalidGemType => "invalid GEM type"@,
        MappingError::TooManyFields => "data path has too many fields"@,
        MappingError::NoPathEntries => "configured data path contains no path entries"@,
    }
}

impl MappingError {
    /// The error's description.
    pub fn message(&self) -> (message: &'static str)
        ensures
            message@ == spec_mapping_message(*self),
    {
        match self {
            MappingError::InvalidAllocId => "invalid alloc_id",
            MappingError::InvalidGemId => "invalid gem_id",
            MappingError::InvalidVlanId => "invalid vlan_id",
            MappingError::InvalidPbitMask => "invalid pbit mask",
            MappingError::InvalidGemType => "invalid GEM type",
            MappingError::TooManyFields => "data path has too many fields",
            MappingError::NoPathEntries => "configured data path contains no path entries",
        }
    }
}

/// One `alloc:gem:vlan:pbits[:type]` record: decimal IDs and VLAN, a
/// hexadecimal P-bit mask, and a GEM type of 0 (unicast, also where it is
/// missing) or 1 (multicast).
pub open spec fn spec_parse_path(path: Seq<char>) -> Result<DataPathCandidate, MappingError> {
    let parts = spec_split(path, ':');
    let alloc = spec_parse_unsigned(parts[0], 10, 0xffff);
    let gem = if parts.len() > 1 { spec_parse_unsigned(parts[1], 10, 0xffff) } else { None };
    let vlan = if parts.len() > 2 { spec_parse_unsigned(parts[2], 10, 0xffff) } else { None };
    let pbits = if parts.len() > 3 { spec_parse_unsigned(parts[3], 16, 0xff) } else { None };
    if alloc is None {
        Err(MappingError::InvalidAllocId)
    } else if gem is None {
        Err(MappingError::InvalidGemId)
    } else if vlan is None {
        Err(MappingError::InvalidVlanId)
    } else if pbits is None {
        Err(MappingError::InvalidPbitMask)
    } else if parts.len() > 4 && parts[4] != seq!['0'] && parts[4] != seq!['1'] {
        Err(MappingError::InvalidGemType)
    } else if parts.len() > 5 {
        Err(MappingError::TooManyFields)
    } else {
        Ok(DataPathCandidate {
            alloc_id: alloc.unwrap() as u16,
            gem_id: gem.unwrap() as u16,
            vlan_id: vlan.unwrap() as u16,
            pbit_mask: pbits.unwrap() as u8,
            multicast: parts.len() > 4 && parts[4] == seq!['1'],
        })
    }
}

pub open spec fn path_prefix() -> Seq<char> {
    seq!['p', 'a', 't', 'h', '=']
}

pub open spec fn is_path_word(word: Seq<char>) -> bool {
    word.len() >= 5 && word.take(5) == path_prefix()
}

/// The records of the `path=` words, in order; the first bad record is the error.
pub open spec fn spec_parse_paths(words: Seq<Seq<char>>) -> Result<Seq<DataPathCandidate>, MappingError>
    decreases words.len(),
{
    if words.len() == 0 {
        Ok(Seq::empty())
    } else {
        match spec_parse_paths(words.drop_last()) {
            Err(e) => Err(e),
            Ok(paths) => if is_path_word(words.last()) {
                match spec_parse_path(words.last().skip(5)) {
                    Ok(p) => Ok(paths.push(p)),
                    Err(e) => Err(e),
                }
            } else {
                Ok(paths)
            },
        }
    }
}

/// The value of the first `key=value` word of `words` named `key`.
pub open spec fn spec_field(words: Seq<Seq<char>>, key: Seq<char>) -> Option<Seq<char>>
    decreases words.len(),
{
    if words.len() == 0 {
        None
    } else {
        match spec_split_once(words[0], '=') {
            Some((name, value)) => if name == key { Some(value) } else { spec_field(words.drop_first(), key) },
            None => spec_field(words.drop_first(), key),
        }
    }
}

pub open spec fn configured_key() -> Seq<char> {
    seq!['c', 'o', 'n', 'f', 'i', 'g', 'u', 'r', 'e', 'd']
}

/// The paths the kernel's data-path attribute reports: none unless it says
/// `configured=1`, and then at least one `path=` record.
pub open spec fn spec_read_mapping(status: Seq<char>) -> Result<Seq<DataPathCandidate>, MappingError> {
    let words = spec_words(status);
    if spec_field(words, configured_key()) != Some(seq!['1']) {
        Ok(Seq::empty())
    } else {
        match spec_parse_paths(words) {
            Ok(paths) => if paths.len() == 0 { Err(MappingError::NoPathEntries) } else { Ok(paths) },
            Err(e) => Err(e),
        }
    }
}

fn parse_path(word: &Vec<char>) -> (path: Result<DataPathCandidate, MappingError>)
    requires
        word@.len() >= 5,
    ensures
        path == spec_parse_path(word@.skip(5)),
{
    let parts = split(word, 5, ':');
    let ghost views = word_views(parts@);
    assert(views[0] == parts@[0]@);
    let alloc = parse_unsigned(&parts[0], 10, 0xffff);
    let gem = if parts.len() > 1 {
        assert(views[1] == parts@[1]@);
        parse_unsigned(&parts[1], 10, 0xffff)
    } else {
        None
    };
    let vlan = if parts.len() > 2 {
        assert(views[2] == parts@[2]@);
        parse_unsigned(&parts[2], 10, 0xffff)
    } else {
        None
    };
    let pbits = if parts.len() > 3 {
        assert(views[3] == parts@[3]@);
        parse_unsigned(&parts[3], 16, 0xff)
    } else {
        None
    };
    if alloc.is_none() {
        return Err(MappingError::InvalidAllocId);
    }
    if gem.is_none() {
        return Err(MappingError::InvalidGemId);
    }
    if vlan.is_none() {
        return Err(MappingError::InvalidVlanId);
    }
    if pbits.is_none() {
        return Err(MappingError::InvalidPbitMask);
    }
    let mut multicast = false;
    if parts.len() > 4 {
        assert(views[4] == parts@[4]@);
        let zero = chars_equal(&parts[4], "0");
        let one = chars_equal(&parts[4], "1");
        proof {
            reveal_strlit("0");
            reveal_strlit("1");
            assert("0"@ =~= seq!['0']);
            assert("1"@ =~= seq!['1']);
        }
        if !zero && !one {
            return Err(MappingError::InvalidGemType);
        }
        multicast = one;
    }
    if parts.len() > 5 {
        return Err(MappingError::TooManyFields);
    }
    Ok(DataPathCandidate {
        alloc_id: alloc.unwrap() as u16,
        gem_id: gem.unwrap() as u16,
        vlan_id: vlan.unwrap() as u16,
        pbit_mask: pbits.unwrap() as u8,
        multicast,
    })
}

proof fn lemma_paths_error_stays(words: Seq<Seq<char>>, k: int, e: MappingError)
    requires
        0 <= k <= words.len(),
        spec_parse_paths(words.take(k)) == Err::<Seq<DataPathCandidate>, MappingError>(e),
    ensures
        spec_parse_paths(words) == Err::<Seq<DataPathCandidate>, MappingError>(e),
    decreases words.len() - k,
{
    if k < words.len() {
        assert(words.take(k + 1).drop_last() =~= words.take(k));
        lemma_paths_error_stays(words, k + 1, e);
    } else {
        assert(words.take(k) =~= words);
    }
}

proof fn lemma_field_step(words: Seq<Seq<char>>, k: int, key: Seq<char>)
    requires
        0 <= k < words.len(),
    ensures
        spec_field(words.skip(k), key) == match spec_split_once(words[k], '=') {
            Some((name, value)) => if name == key { Some(value) } else { spec_field(words.skip(k + 1), key) },
            None => spec_field(words.skip(k + 1), key),
        },
{
    assert(words.skip(k)[0] == words[k]);
    assert(words.skip(k).drop_first() =~= words.skip(k + 1));
}

/// For a `configured=value` word, whether the value is `1`.
fn configured_field(word: &Vec<char>) -> (one: Option<bool>)
    ensures
        match spec_split_once(word@, '=') {
            Some((name, value)) => if name == configured_key() {
                one == Some(value == seq!['1'])
            } else {
                one is None
            },
            None => one is None,
        },
{
    let at = match find_char(word, '=') {
        Some(at) => at,
        None => return None,
    };
    let key = vec!['c', 'o', 'n', 'f', 'i', 'g', 'u', 'r', 'e', 'd'];
    assert(key@ =~= configured_key());
    if at != 10 {
        assert(word@.take(at as int).len() != configured_key().len());
        return None;
    }
    let mut k: usize = 0;
    while k < 10
        invariant
            k <= 10,
            at == 10,
            10 < word@.len(),
            first_index(word@, '=') == Some(10int),
            key@ == configured_key(),
            forall|m: int| 0 <= m < k ==> word@[m] == key@[m],
        decreases 10 - k,
    {
        if word[k] != key[k] {
            assert(word@.take(10)[k as int] != configured_key()[k as int]);
            assert(word@.take(10) != configured_key());
            return None;
        }
        k += 1;
    }
    assert(word@.take(10) =~= configured_key());
    let one = word.len() == 12 && word[11] == '1';
    proof {
        let value = word@.skip(11);
        if word@.len() == 12 && word@[11] == '1' {
            assert(value =~= seq!['1']);
        } else if word@.len() == 12 {
            assert(value[0] != seq!['1'][0]);
        } else {
            assert(value.len() != 1);
        }
    }
    Some(one)
}

/// Reads the kernel's data-path attribute text as the mapping it holds.
pub fn parse_current_mapping(status: &str) -> (mapping: Result<Vec<DataPathCandidate>, MappingError>)
    ensures
        match mapping {
            Ok(paths) => spec_read_mapping(status@) == Ok::<Seq<DataPathCandidate>, MappingError>(paths@),
            Err(e) => spec_read_mapping(status@) == Err::<Seq<DataPathCandidate>, MappingError>(e),
        },
{
    let chars = str_chars(status);
    let words = words(&chars);
    let ghost views = word_views(words@);
    let mut configured = false;
    let mut found = false;
    let mut i: usize = 0;
    assert(views.skip(0) =~= views);
    while i < words.len() && !found
        invariant
            i <= words@.len(),
            views == word_views(words@),
            !found ==> spec_field(views, configured_key()) == spec_field(views.skip(i as int), configured_key()),
            found ==> configured == (spec_field(views, configured_key()) == Some(seq!['1'])),
            !found ==> !configured,
        decreases words@.len() - i + (if found { 0int } else { 1int }),
    {
        proof {
            lemma_field_step(views, i as int, configured_key());
        }
        assert(views[i as int] == words@[i as int]@);
        match configured_field(&words[i]) {
            Some(one) => {
                configured = one;
                found = true;
            },
            None => {
                i += 1;
            },
        }
    }
    proof {
        if !found {
            assert(views.skip(i as int).len() == 0);
        }
    }
    if !configured {
        return Ok(Vec::new());
    }
    let mut paths: Vec<DataPathCandidate> = Vec::new();
    let mut k: usize = 0;
    assert(views.take(0) =~= Seq::<Seq<char>>::empty());
    assert(views == spec_words(status@));
    assert(spec_field(views, configured_key()) == Some(seq!['1']));
    while k < words.len()
        invariant
            k <= words@.len(),
            views == word_views(words@),
            views == spec_words(status@),
            spec_field(views, configured_key()) == Some(seq!['1']),
            spec_parse_paths(views.take(k as int)) == Ok::<Seq<DataPathCandidate>, MappingError>(paths@),
        decreases words@.len() - k,
    {
        let w = &words[k];
        assert(views[k as int] == w@);
        assert(views.take(k + 1).drop_last() =~= views.take(k as int));
        assert(views.take(k + 1).last() == w@);
        let is_path = starts_with(w, "path=");
        proof {
            reveal_strlit("path=");
            assert("path="@ =~= path_prefix());
        }
        if is_path {
            match parse_path(w) {
                Ok(p) => {
                    paths.push(p);
                },
                Err(e) => {
                    proof {
                        assert(w@.take(5) =~= path_prefix());
                        assert(is_path_word(w@));
                        assert(spec_parse_paths(views.take(k + 1)) == Err::<Seq<DataPathCandidate>, MappingError>(e));
                        lemma_paths_error_stays(views, k + 1, e);
                    }
                    return Err(e);
                },
            }
        }
        k += 1;
    }
    assert(views.take(words@.len() as int) =~= views);
    if paths.len() == 0 {
        return Err(MappingError::NoPathEntries);
    }
    Ok(paths)
}

/// One path record: `alloc:gem:vlan:pbits:type`, decimal but for two hexadecimal P-bit digits.
pub open spec fn spec_path_record(p: DataPathCandidate) -> Seq<char> {
    spec_decimal(p.alloc_id as nat) + seq![':'] + spec_decimal(p.gem_id as nat) + seq![':']
        + spec_decimal(p.vlan_id as nat) + seq![':'] + spec_hex(p.pbit_mask as nat, 2) + seq![':']
        + (if p.multicast { seq!['1'] } else { seq!['0'] })
}

/// One path as the data-path attribute takes it: a space, then its record.
pub open spec fn spec_path_field(p: DataPathCandidate) -> Seq<char> {
    seq![' '] + spec_path_record(p)
}

pub open spec fn spec_path_fields(paths: Seq<DataPathCandidate>) -> Seq<char>
    decreases paths.len(),
{
    if paths.len() == 0 {
        Seq::empty()
    } else {
        spec_path_fields(paths.drop_last()) + spec_path_field(paths.last())
    }
}

/// The data-path attribute write that installs exactly `paths`.
pub open spec fn spec_replace_value(paths: Seq<DataPathCandidate>) -> Seq<char> {
    "replace"@ + spec_path_fields(paths) + seq!['\n']
}

/// The data-path attribute write that removes every path.
pub open spec fn spec_clear_value() -> Seq<char> {
    seq!['c', 'l', 'e', 'a', 'r', '\n']
}

/// The write that installs exactly `paths`.
#[verifier::rlimit(40)]
pub fn replace_value(paths: &Vec<DataPathCandidate>) -> (value: String)
    ensures
        value@ == spec_replace_value(paths@),
{
    let mut value = String::new();
    push_text(&mut value, "replace");
    let ghost head = value@;
    let mut i: usize = 0;
    assert(paths@.take(0) =~= Seq::<DataPathCandidate>::empty());
    while i < paths.len()
        invariant
            i <= paths@.len(),
            value@ == head + spec_path_fields(paths@.take(i as int)),
        decreases paths@.len() - i,
    {
        let p = paths[i];
        let ghost before = value@;
        push_char(&mut value, ' ');
        push_decimal(&mut value, p.alloc_id as u128);
        push_char(&mut value, ':');
        push_decimal(&mut value, p.gem_id as u128);
        push_char(&mut value, ':');
        push_decimal(&mut value, p.vlan_id as u128);
        push_char(&mut value, ':');
        push_hex(&mut value, p.pbit_mask as u128, 2);
        push_char(&mut value, ':');
        push_char(&mut value, if p.multicast { '1' } else { '0' });
        proof {
            assert(value@ =~= before + spec_path_field(p));
            assert(paths@.take(i + 1).drop_last() =~= paths@.take(i as int));
            assert(paths@.take(i + 1).last() == p);
            assert(value@ =~= head + spec_path_fields(paths@.take(i + 1)));
        }
        i += 1;
    }
    push_char(&mut value, '\n');
    assert(paths@.take(paths@.len() as int) =~= paths@);
    assert(value@ =~= spec_replace_value(paths@));
    value
}

/// The write that removes every path.
pub fn clear_value() -> (value: String)
    ensures
        value@ == spec_clear_value(),
{
    let mut value = String::new();
    push_text(&mut value, "clear\n");
    proof {
        reveal_strlit("clear\n");
    }
    assert(value@ =~= spec_clear_value());
    value
}

/// The session key as the kernel's MSK attribute takes it: 32 lower-case
/// hexadecimal digits and a newline.
pub fn master_session_key_value(key: &[u8; 16]) -> (value: String)
    ensures
        value@ == spec_hex_bytes(key@) + seq!['\n'],
{
    let mut value = hex_bytes(key.as_slice());
    push_char(&mut value, '\n');
    value
}

/// The active serial number the kernel reports: `none`, or sixteen hexadecimal
/// digits, white space around them aside.
pub open spec fn spec_active_serial_number(text: Seq<char>) -> Result<Option<Seq<u8>>, Seq<char>> {
    let t = trim(text);
    if t == seq!['n', 'o', 'n', 'e'] {
        Ok(None)
    } else {
        match spec_decode_hex(encode_utf8(t)) {
            Err(HexError::OddDigitCount) => Err("odd digit count"@),
            Err(HexError::NonHexDigit) => Err("non-hex digit"@),
            Ok(bytes) => if bytes.len() == 8 { Ok(Some(bytes)) } else { Err("active PON serial number is not eight bytes"@) },
        }
    }
}

/// Reads the active serial number attribute; the error says why it is not one.
pub fn parse_active_serial_number(text: &str) -> (serial: Result<Option<[u8; 8]>, &'static str>)
    ensures
        match spec_active_serial_number(text@) {
            Ok(Some(bytes)) => serial matches Ok(Some(s)) && s@ == bytes,
            Ok(None) => serial matches Ok(None),
            Err(message) => serial matches Err(m) && m@ == message,
        },
{
    let chars = str_chars(text);
    let (start, end) = trim_bounds(&chars);
    let mut trimmed = String::new();
    let mut i: usize = start;
    assert(chars@.subrange(start as int, start as int) =~= Seq::<char>::empty());
    while i < end
        invariant
            start <= i <= end <= chars@.len(),
            trimmed@ == chars@.subrange(start as int, i as int),
        decreases end - i,
    {
        push_char(&mut trimmed, chars[i]);
        assert(chars@.subrange(start as int, i + 1) =~= chars@.subrange(start as int, i as int).push(chars@[i as int]));
        i += 1;
    }
    let t = trimmed.as_str();
    let is_none = end - start == 4 && chars[start] == 'n' && chars[start + 1] == 'o' && chars[start + 2] == 'n'
        && chars[start + 3] == 'e';
    proof {
        if end - start == 4 {
            assert(is_none == (t@ =~= seq!['n', 'o', 'n', 'e']));
        } else {
            assert(t@.len() != 4);
        }
    }
    if is_none {
        return Ok(None);
    }
    match decode_hex(t) {
        Ok(bytes) => {
            if bytes.len() != 8 {
                return Err("active PON serial number is not eight bytes");
            }
            let mut serial = [0u8; 8];
            let mut k: usize = 0;
            while k < 8
                invariant
                    k <= 8,
                    bytes@.len() == 8,
                    forall|m: int| 0 <= m < k ==> serial@[m] == bytes@[m],
                decreases 8 - k,
            {
                serial[k] = bytes[k];
                k += 1;
            }
            assert(serial@ =~= bytes@);
            Ok(Some(serial))
        },
        Err(message) => Err(message),
    }
}

/// A write of the data-path attribute the backend waits on.
pub ghost enum PendingView {
    Nothing,
    /// Clearing, because the unicast paths of `gem_count` GEM ports overlap.
    ClearAmbiguous { gem_count: nat },
    /// Clearing, because the MIB describes no path.
    ClearNoPaths,
    /// Installing `desired`.
    Replace { desired: Seq<DataPathCandidate>, service_ready: bool },
}

enum PendingWrite {
    Nothing,
    ClearAmbiguous { gem_count: usize },
    ClearNoPaths,
    Replace { desired: Vec<DataPathCandidate>, service_ready: bool },
}

impl View for PendingWrite {
    type V = PendingView;

    closed spec fn view(&self) -> PendingView {
        match self {
            PendingWrite::Nothing => PendingView::Nothing,
            PendingWrite::ClearAmbiguous { gem_count } => PendingView::ClearAmbiguous { gem_count: *gem_count as nat },
            PendingWrite::ClearNoPaths => PendingView::ClearNoPaths,
            PendingWrite::Replace { desired, service_ready } => PendingView::Replace {
                desired: desired@,
                service_ready: *service_ready,
            },
        }
    }
}

/// The kernel data path as the backend last saw it.
pub struct DataPathBackend {
    applied: Vec<DataPathCandidate>,
    status: BackendStatus,
    pending: PendingWrite,
    alloc_id_timeout: u32,
    waiting_since: Option<u64>,
}

pub ghost struct DataPathBackendView {
    /// The paths the kernel carries.
    pub applied: Seq<DataPathCandidate>,
    pub status: BackendStatusView,
    pub pending: PendingView,
    /// Seconds a write may wait for Alloc-IDs before the state becomes
    /// `alloc-id-timeout`; 0 never times out.
    pub alloc_id_timeout: u32,
    /// When (in milliseconds) the kernel first held back the paths the
    /// backend still waits on.
    pub waiting_since: Option<u64>,
}

/// How often, in milliseconds, a backend that waits for Alloc-IDs looks again.
pub const ALLOC_ID_RECHECK_MS: u64 = 1000;

/// Whether a wait for Alloc-IDs that began at `since` has, at `now`, lasted
/// the timeout of `timeout` seconds; a timeout of 0 never passes.
pub open spec fn alloc_id_timed_out(timeout: u32, since: u64, now: u64) -> bool {
    timeout > 0 && now >= since && now - since >= timeout * 1000
}

impl View for DataPathBackend {
    type V = DataPathBackendView;

    closed spec fn view(&self) -> DataPathBackendView {
        DataPathBackendView {
            applied: self.applied@,
            status: self.status@,
            pending: self.pending@,
            alloc_id_timeout: self.alloc_id_timeout,
            waiting_since: self.waiting_since,
        }
    }
}

/// What the caller does next in a reconciliation.
pub enum ReconcileStep {
    /// Publish service readiness; the reconciliation is over.
    Publish { ready: bool },
    /// Write `value` to the data-path attribute, then report the outcome to `finish_reconcile`.
    Write { value: String },
}

pub ghost enum ReconcileStepView {
    Publish { ready: bool },
    Write { value: Seq<char> },
}

impl View for ReconcileStep {
    type V = ReconcileStepView;

    open spec fn view(&self) -> ReconcileStepView {
        match self {
            ReconcileStep::Publish { ready } => ReconcileStepView::Publish { ready: *ready },
            ReconcileStep::Write { value } => ReconcileStepView::Write { value: value@ },
        }
    }
}

/// How a write of the data-path attribute went.
pub enum WriteOutcome {
    Written,
    /// The kernel keeps the request until PLOAM assigns every unicast Alloc-ID.
    WouldBlock { message: String },
    Failed { message: String },
}

pub ghost enum WriteOutcomeView {
    Written,
    WouldBlock { message: Seq<char> },
    Failed { message: Seq<char> },
}

impl View for WriteOutcome {
    type V = WriteOutcomeView;

    open spec fn view(&self) -> WriteOutcomeView {
        match self {
            WriteOutcome::Written => WriteOutcomeView::Written,
            WriteOutcome::WouldBlock { message } => WriteOutcomeView::WouldBlock { message: message@ },
            WriteOutcome::Failed { message } => WriteOutcomeView::Failed { message: message@ },
        }
    }
}

pub open spec fn ambiguity_message(gem_count: nat) -> Seq<char> {
    spec_decimal(gem_count) + " bidirectional GEM paths contain overlapping VLAN/802.1p rules"@
}

/// Whether the status reports its paths as accepting every VLAN: there is a
/// unicast path and every unicast path takes any VLAN.
pub open spec fn spec_all_vlans(applied: Seq<DataPathCandidate>) -> bool {
    &&& first_unicast(applied) is Some
    &&& forall|i: int| 0 <= i < applied.len() && !(#[trigger] applied[i]).multicast ==> applied[i].vlan_id == DATA_PATH_VLAN_ANY
}

/// The status for the paths the kernel carries at start.
pub open spec fn spec_start_status(applied: Seq<DataPathCandidate>) -> BackendStatusView {
    if first_unicast(applied) is Some {
        BackendStatusView {
            state: "kernel-mapping-present"@,
            active_alloc_id: alloc_of(first_unicast(applied)),
            active_gem_id: gem_of(first_unicast(applied)),
            ..spec_initial_status()
        }
    } else {
        spec_initial_status()
    }
}

pub open spec fn with_state(status: BackendStatusView, state: Seq<char>) -> BackendStatusView {
    BackendStatusView { state, ..status }
}

pub open spec fn with_error(status: BackendStatusView, state: Seq<char>, error: Seq<char>) -> BackendStatusView {
    BackendStatusView { state, error: Some(error), ..status }
}

/// The first half of a reconciliation: the mapping the kernel reports (or why
/// it could not be read) against the paths the MIB describes.
pub open spec fn spec_begin(
    b: DataPathBackendView,
    mapping: Result<Seq<DataPathCandidate>, Seq<char>>,
    paths: Seq<DataPathCandidate>,
) -> (DataPathBackendView, ReconcileStepView) {
    let cleared = BackendStatusView { error: None, ..b.status };
    match mapping {
        Err(message) => (
            DataPathBackendView {
                status: with_error(cleared, "apply-failed"@, message),
                pending: PendingView::Nothing,
                waiting_since: None,
                ..b
            },
            ReconcileStepView::Publish { ready: false },
        ),
        Ok(applied) => {
            let status = BackendStatusView {
                active_alloc_id: alloc_of(first_unicast(applied)),
                active_gem_id: gem_of(first_unicast(applied)),
                ..cleared
            };
            let b1 = DataPathBackendView { applied, status, pending: PendingView::Nothing, ..b };
            let idle = DataPathBackendView { waiting_since: None, ..b1 };
            match spec_desired(paths) {
                Err(count) => if applied.len() == 0 {
                    (
                        DataPathBackendView { status: with_error(status, "ambiguous-gem-mapping"@, ambiguity_message(count)), ..idle },
                        ReconcileStepView::Publish { ready: false },
                    )
                } else {
                    (
                        DataPathBackendView { pending: PendingView::ClearAmbiguous { gem_count: count }, ..b1 },
                        ReconcileStepView::Write { value: spec_clear_value() },
                    )
                },
                Ok(desired) => if desired.len() == 0 {
                    if applied.len() == 0 {
                        (
                            DataPathBackendView { status: with_state(status, "waiting-for-gem"@), ..idle },
                            ReconcileStepView::Publish { ready: false },
                        )
                    } else {
                        (
                            DataPathBackendView { pending: PendingView::ClearNoPaths, ..b1 },
                            ReconcileStepView::Write { value: spec_clear_value() },
                        )
                    }
                } else if applied == desired {
                    (
                        DataPathBackendView { status: with_state(status, "applied"@), ..idle },
                        ReconcileStepView::Publish { ready: first_unicast(desired) is Some },
                    )
                } else {
                    (
                        DataPathBackendView {
                            pending: PendingView::Replace { desired, service_ready: first_unicast(desired) is Some },
                            ..b1
                        },
                        ReconcileStepView::Write { value: spec_replace_value(desired) },
                    )
                },
            }
        },
    }
}

/// The second half of a reconciliation: the outcome of the write it asked
/// for at time `now` (in milliseconds), and the service readiness to publish.
/// Paths the kernel holds back wait for Alloc-IDs, until the timeout passes.
pub open spec fn spec_finish(b: DataPathBackendView, outcome: WriteOutcomeView, now: u64) -> (DataPathBackendView, bool) {
    let done = DataPathBackendView { pending: PendingView::Nothing, waiting_since: None, ..b };
    let emptied = DataPathBackendView {
        applied: Seq::empty(),
        status: BackendStatusView { active_alloc_id: None, active_gem_id: None, ..b.status },
        ..done
    };
    match b.pending {
        PendingView::Nothing => (b, false),
        PendingView::ClearAmbiguous { gem_count } => match outcome {
            WriteOutcomeView::Written => (
                DataPathBackendView { status: with_error(emptied.status, "ambiguous-gem-mapping"@, ambiguity_message(gem_count)), ..emptied },
                false,
            ),
            WriteOutcomeView::WouldBlock { message } => (DataPathBackendView { status: with_error(b.status, "clear-failed"@, message), ..done }, false),
            WriteOutcomeView::Failed { message } => (DataPathBackendView { status: with_error(b.status, "clear-failed"@, message), ..done }, false),
        },
        PendingView::ClearNoPaths => match outcome {
            WriteOutcomeView::Written => (DataPathBackendView { status: with_state(emptied.status, "waiting-for-gem"@), ..emptied }, false),
            WriteOutcomeView::WouldBlock { message } => (DataPathBackendView { status: with_error(b.status, "clear-failed"@, message), ..done }, false),
            WriteOutcomeView::Failed { message } => (DataPathBackendView { status: with_error(b.status, "clear-failed"@, message), ..done }, false),
        },
        PendingView::Replace { desired, service_ready } => match outcome {
            WriteOutcomeView::Written => (
                DataPathBackendView {
                    applied: desired,
                    status: BackendStatusView {
                        state: "applied"@,
                        active_alloc_id: alloc_of(first_unicast(desired)),
                        active_gem_id: gem_of(first_unicast(desired)),
                        ..b.status
                    },
                    ..done
                },
                service_ready,
            ),
            WriteOutcomeView::WouldBlock { .. } => {
                let since = match b.waiting_since {
                    Some(since) => since,
                    None => now,
                };
                let state = if alloc_id_timed_out(b.alloc_id_timeout, since, now) {
                    "alloc-id-timeout"@
                } else {
                    "waiting-for-alloc-id"@
                };
                (DataPathBackendView { status: with_state(b.status, state), waiting_since: Some(since), ..done }, false)
            },
            WriteOutcomeView::Failed { message } => (DataPathBackendView { status: with_error(b.status, "apply-failed"@, message), ..done }, false),
        },
    }
}

fn paths_equal(a: &Vec<DataPathCandidate>, b: &Vec<DataPathCandidate>) -> (equal: bool)
    ensures
        equal == (a@ == b@),
{
    if a.len() != b.len() {
        return false;
    }
    let mut i: usize = 0;
    while i < a.len()
        invariant
            i <= a@.len(),
            a@.len() == b@.len(),
            forall|k: int| 0 <= k < i ==> a@[k] == b@[k],
        decreases a@.len() - i,
    {
        if a[i] != b[i] {
            return false;
        }
        i += 1;
    }
    assert(a@ =~= b@);
    true
}

fn ambiguity_text(gem_count: usize) -> (text: String)
    ensures
        text@ == ambiguity_message(gem_count as nat),
{
    let mut text = String::new();
    push_decimal(&mut text, gem_count as u128);
    push_text(&mut text, " bidirectional GEM paths contain overlapping VLAN/802.1p rules");
    text
}

impl DataPathBackend {
    /// The backend of an OMCI interface whose kernel data path carries
    /// `applied` at start, with an Alloc-ID timeout in seconds (0 for none).
    pub fn for_omci_interface(applied: Vec<DataPathCandidate>, alloc_id_timeout: u32) -> (backend: DataPathBackend)
        ensures
            backend@ == (DataPathBackendView {
                applied: applied@,
                status: spec_start_status(applied@),
                pending: PendingView::Nothing,
                alloc_id_timeout,
                waiting_since: None,
            }),
    {
        let mut status = BackendStatus::default();
        match find_unicast(&applied) {
            Some(mapping) => {
                status.state = "kernel-mapping-present";
                status.active_alloc_id = Some(mapping.alloc_id);
                status.active_gem_id = Some(mapping.gem_id);
            },
            None => {},
        }
        DataPathBackend { applied, status, pending: PendingWrite::Nothing, alloc_id_timeout, waiting_since: None }
    }

    /// The status to publish: the last state, and whether the installed
    /// unicast paths accept every VLAN.
    pub fn status(&self) -> (status: BackendStatus)
        ensures
            status@ == (BackendStatusView { all_vlans: spec_all_vlans(self@.applied), ..self@.status }),
    {
        let mut status = self.status.duplicate();
        let any_unicast = find_unicast(&self.applied).is_some();
        let mut every = true;
        let mut i: usize = 0;
        while i < self.applied.len()
            invariant
                i <= self.applied@.len(),
                every == forall|k: int| 0 <= k < i && !(#[trigger] self.applied@[k]).multicast ==> self.applied@[k].vlan_id == DATA_PATH_VLAN_ANY,
            decreases self.applied@.len() - i,
        {
            let p = self.applied[i];
            if !p.multicast && p.vlan_id != DATA_PATH_VLAN_ANY {
                every = false;
            }
            i += 1;
        }
        status.all_vlans = any_unicast && every;
        status
    }

    /// How long, in milliseconds, the caller may wait for other work before it
    /// reconciles again: while paths wait for Alloc-IDs, a bounded time;
    /// otherwise no limit.
    pub fn recheck_interval(&self) -> (interval: Option<u64>)
        ensures
            interval == (if self@.waiting_since is Some { Some(ALLOC_ID_RECHECK_MS) } else { None::<u64> }),
    {
        if self.waiting_since.is_some() {
            Some(ALLOC_ID_RECHECK_MS)
        } else {
            None
        }
    }

    /// Starts a reconciliation with the kernel's mapping, or why it could not
    /// be read, and the snapshot's paths; says what the caller does next.
    pub fn begin_reconcile(&mut self, mapping: Result<Vec<DataPathCandidate>, String>, paths: &Vec<DataPathCandidate>) -> (step: ReconcileStep)
        ensures
            (final(self)@, step@) == spec_begin(
                old(self)@,
                match mapping {
                    Ok(m) => Ok::<Seq<DataPathCandidate>, Seq<char>>(m@),
                    Err(e) => Err::<Seq<DataPathCandidate>, Seq<char>>(e@),
                },
                paths@,
            ),
    {
        self.status.error = None;
        self.pending = PendingWrite::Nothing;
        let applied = match mapping {
            Ok(applied) => applied,
            Err(message) => {
                self.waiting_since = None;
                self.status.state = "apply-failed";
                self.status.error = Some(message);
                return ReconcileStep::Publish { ready: false };
            },
        };
        self.applied = applied;
        match find_unicast(&self.applied) {
            Some(p) => {
                self.status.active_alloc_id = Some(p.alloc_id);
                self.status.active_gem_id = Some(p.gem_id);
            },
            None => {
                self.status.active_alloc_id = None;
                self.status.active_gem_id = None;
            },
        }
        match desired_paths(paths) {
            DesiredPaths::Ambiguous { gem_count } => {
                if self.applied.len() == 0 {
                    self.waiting_since = None;
                    self.status.state = "ambiguous-gem-mapping";
                    self.status.error = Some(ambiguity_text(gem_count));
                    ReconcileStep::Publish { ready: false }
                } else {
                    self.pending = PendingWrite::ClearAmbiguous { gem_count };
                    ReconcileStep::Write { value: clear_value() }
                }
            },
            DesiredPaths::Paths { paths: desired } => {
                if desired.len() == 0 {
                    if self.applied.len() == 0 {
                        self.waiting_since = None;
                        self.status.state = "waiting-for-gem";
                        ReconcileStep::Publish { ready: false }
                    } else {
                        self.pending = PendingWrite::ClearNoPaths;
                        ReconcileStep::Write { value: clear_value() }
                    }
                } else if paths_equal(&self.applied, &desired) {
                    self.waiting_since = None;
                    self.status.state = "applied";
                    let ready = find_unicast(&desired).is_some();
                    ReconcileStep::Publish { ready }
                } else {
                    let ready = find_unicast(&desired).is_some();
                    let value = replace_value(&desired);
                    self.pending = PendingWrite::Replace { desired, service_ready: ready };
                    ReconcileStep::Write { value }
                }
            },
        }
    }

    /// Completes a reconciliation with the outcome of the write it asked for,
    /// at time `now` in milliseconds; returns the service readiness to publish.
    pub fn finish_reconcile(&mut self, outcome: WriteOutcome, now: u64) -> (ready: bool)
        ensures
            (final(self)@, ready) == spec_finish(old(self)@, outcome@, now),
    {
        let mut pending = PendingWrite::Nothing;
        std::mem::swap(&mut pending, &mut self.pending);
        let waiting_since = self.waiting_since;
        if !matches!(pending, PendingWrite::Nothing) {
            self.waiting_since = None;
        }
        match pending {
            PendingWrite::Nothing => {
                proof {
                    assert(self@ == old(self)@);
                }
                false
            },
            PendingWrite::ClearAmbiguous { gem_count } => match outcome {
                WriteOutcome::Written => {
                    self.applied = Vec::new();
                    self.status.active_alloc_id = None;
                    self.status.active_gem_id = None;
                    self.status.state = "ambiguous-gem-mapping";
                    self.status.error = Some(ambiguity_text(gem_count));
                    false
                },
                WriteOutcome::WouldBlock { message } | WriteOutcome::Failed { message } => {
                    self.status.state = "clear-failed";
                    self.status.error = Some(message);
                    false
                },
            },
            PendingWrite::ClearNoPaths => match outcome {
                WriteOutcome::Written => {
                    self.applied = Vec::new();
                    self.status.active_alloc_id = None;
                    self.status.active_gem_id = None;
                    self.status.state = "waiting-for-gem";
                    false
                },
                WriteOutcome::WouldBlock { message } | WriteOutcome::Failed { message } => {
                    self.status.state = "clear-failed";
                    self.status.error = Some(message);
                    false
                },
            },
            PendingWrite::Replace { desired, service_ready } => match outcome {
                WriteOutcome::Written => {
                    match find_unicast(&desired) {
                        Some(p) => {
                            self.status.active_alloc_id = Some(p.alloc_id);
                            self.status.active_gem_id = Some(p.gem_id);
                        },
                        None => {
                            self.status.active_alloc_id = None;
                            self.status.active_gem_id = None;
                        },
                    }
                    self.applied = desired;
                    self.status.state = "applied";
                    service_ready
                },
                WriteOutcome::WouldBlock { .. } => {
                    let since = match waiting_since {
                        Some(since) => since,
                        None => now,
                    };
                    self.waiting_since = Some(since);
                    let timeout_ms = self.alloc_id_timeout as u64 * 1000;
                    if self.alloc_id_timeout > 0 && now >= since && now - since >= timeout_ms {
                        self.status.state = "alloc-id-timeout";
                    } else {
                        self.status.state = "waiting-for-alloc-id";
                    }
                    false
                },
                WriteOutcome::Failed { message } => {
                    self.status.state = "apply-failed";
                    self.status.error = Some(message);
                    false
                },
            },
        }
    }
}

proof fn lemma_multicast_paths(paths: Seq<DataPathCandidate>)
    ensures
        forall|i: int| 0 <= i < multicast_paths(paths).len() ==> (#[trigger] multicast_paths(paths)[i]).multicast,
    decreases paths.len(),
{
    if paths.len() > 0 {
        lemma_multicast_paths(paths.drop_last());
        let rest = multicast_paths(paths.drop_last());
        if paths.last().multicast {
            assert forall|i: int| 0 <= i < multicast_paths(paths).len() implies (#[trigger] multicast_paths(paths)[i]).multicast by {
                if i < rest.len() {
                    assert(multicast_paths(paths)[i] == rest[i]);
                }
            }
        }
    }
}

/// With one unicast GEM port the installed paths take every VLAN: the unicast
/// path comes first with any VLAN and every P-bit, the multicast paths after it.
pub proof fn lemma_single_gem_takes_every_vlan(paths: Seq<DataPathCandidate>)
    requires
        distinct_gems(paths).len() == 1,
    ensures
        spec_desired(paths) matches Ok(desired) && spec_all_vlans(desired) && desired[0].pbit_mask == 0xff,
{
    lemma_gems_need_unicast(paths);
    let unicast = first_unicast(paths).unwrap();
    lemma_first_unicast_found(paths);
    let head = DataPathCandidate { vlan_id: DATA_PATH_VLAN_ANY, pbit_mask: 0xff, ..unicast };
    let desired = seq![head] + multicast_paths(paths);
    lemma_multicast_paths(paths);
    assert(first_unicast(desired) == Some(head));
    assert forall|i: int| 0 <= i < desired.len() && !(#[trigger] desired[i]).multicast implies desired[i].vlan_id
        == DATA_PATH_VLAN_ANY by {
        if i > 0 {
            assert(desired[i] == multicast_paths(paths)[i - 1]);
        }
    }
}

proof fn lemma_first_unicast_found(paths: Seq<DataPathCandidate>)
    ensures
        first_unicast(paths) matches Some(p) ==> !p.multicast,
    decreases paths.len(),
{
    if paths.len() > 0 && paths[0].multicast {
        lemma_first_unicast_found(paths.drop_first());
    }
}

/// Once the kernel reports the paths the MIB asks for, a reconciliation writes
/// nothing: the state is `applied` and readiness follows from the unicast paths.
pub proof fn lemma_reconcile_settles(b: DataPathBackendView, paths: Seq<DataPathCandidate>, desired: Seq<DataPathCandidate>)
    requires
        spec_desired(paths) == Ok::<Seq<DataPathCandidate>, nat>(desired),
        desired.len() > 0,
    ensures
        spec_begin(b, Ok(desired), paths).1 == (ReconcileStepView::Publish { ready: first_unicast(desired) is Some }),
        spec_begin(b, Ok(desired), paths).0.status.state == "applied"@,
        spec_begin(b, Ok(desired), paths).0.applied == desired,
{
}

/// A reconciliation that wrote its paths leaves the kernel carrying exactly
/// them; the next one, against the same MIB and the mapping the kernel then
/// reports, writes nothing.
pub proof fn lemma_written_paths_settle(
    b: DataPathBackendView,
    mapping: Seq<DataPathCandidate>,
    paths: Seq<DataPathCandidate>,
    now: u64,
)
    requires
        spec_begin(b, Ok(mapping), paths).1 is Write,
        spec_begin(b, Ok(mapping), paths).0.pending is Replace,
    ensures
        ({
            let written = spec_finish(spec_begin(b, Ok(mapping), paths).0, WriteOutcomeView::Written, now).0;
            &&& spec_desired(paths) matches Ok(desired) && written.applied == desired
            &&& spec_begin(written, Ok(written.applied), paths).1 is Publish
        }),
{
    let b1 = spec_begin(b, Ok(mapping), paths).0;
    let written = spec_finish(b1, WriteOutcomeView::Written, now).0;
    if let Ok(desired) = spec_desired(paths) {
        lemma_reconcile_settles(written, paths, desired);
    }
}

/// Paths the kernel keeps holding back wait for Alloc-IDs until the timeout
/// has passed since the first refusal, and are then reported as timed out;
/// the kernel keeps the request, so once the kernel reports them the state is
/// `applied` again.
pub proof fn lemma_held_back_paths_time_out(
    b: DataPathBackendView,
    mapping: Seq<DataPathCandidate>,
    paths: Seq<DataPathCandidate>,
    first: Seq<char>,
    later: Seq<char>,
    start: u64,
    now: u64,
)
    requires
        b.waiting_since is None,
        b.alloc_id_timeout > 0,
        spec_begin(b, Ok(mapping), paths).0.pending is Replace,
        now >= start + b.alloc_id_timeout * 1000,
    ensures
        ({
            let b1 = spec_finish(spec_begin(b, Ok(mapping), paths).0, WriteOutcomeView::WouldBlock { message: first }, start).0;
            let b2 = spec_finish(spec_begin(b1, Ok(mapping), paths).0, WriteOutcomeView::WouldBlock { message: later }, now).0;
            &&& b1.status.state == "waiting-for-alloc-id"@
            &&& b2.status.state == "alloc-id-timeout"@
            &&& spec_desired(paths) matches Ok(desired) && spec_begin(b2, Ok(desired), paths).0.status.state == "applied"@
        }),
{
    let b1 = spec_finish(spec_begin(b, Ok(mapping), paths).0, WriteOutcomeView::WouldBlock { message: first }, start).0;
    assert(b1.waiting_since == Some(start));
    if let Ok(desired) = spec_desired(paths) {
        let b2 = spec_finish(spec_begin(b1, Ok(mapping), paths).0, WriteOutcomeView::WouldBlock { message: later }, now).0;
        lemma_reconcile_settles(b2, paths, desired);
    }
}

/// With a timeout of 0 the wait for Alloc-IDs never times out: no
/// reconciliation step reports `alloc-id-timeout` where the state before it
/// did not.
pub proof fn lemma_zero_timeout_never_times_out(
    b: DataPathBackendView,
    mapping: Result<Seq<DataPathCandidate>, Seq<char>>,
    paths: Seq<DataPathCandidate>,
    outcome: WriteOutcomeView,
    now: u64,
)
    requires
        b.alloc_id_timeout == 0,
        b.status.state != "alloc-id-timeout"@,
    ensures
        spec_begin(b, mapping, paths).0.status.state != "alloc-id-timeout"@,
        spec_begin(b, mapping, paths).0.alloc_id_timeout == 0,
        spec_finish(b, outcome, now).0.status.state != "alloc-id-timeout"@,
        spec_finish(b, outcome, now).0.alloc_id_timeout == 0,
{
    reveal_strlit("alloc-id-timeout");
    reveal_strlit("applied");
    reveal_strlit("apply-failed");
    reveal_strlit("clear-failed");
    reveal_strlit("ambiguous-gem-mapping");
    reveal_strlit("waiting-for-gem");
    reveal_strlit("waiting-for-alloc-id");
    let timeout = "alloc-id-timeout"@;
    assert(timeout.len() == 16);
    assert("applied"@.len() != 16);
    assert("apply-failed"@.len() != 16);
    assert("clear-failed"@.len() != 16);
    assert("ambiguous-gem-mapping"@.len() != 16);
    assert("waiting-for-gem"@.len() != 16);
    assert("waiting-for-alloc-id"@.len() != 16);
}

/// A new PON epoch clears the kernel's mapping while the MIB keeps its
/// paths: a reconciliation that finds no mapping writes the paths again.
pub proof fn lemma_lost_mapping_is_rewritten(b: DataPathBackendView, paths: Seq<DataPathCandidate>, desired: Seq<DataPathCandidate>)
    requires
        spec_desired(paths) == Ok::<Seq<DataPathCandidate>, nat>(desired),
        desired.len() > 0,
    ensures
        spec_begin(b, Ok(Seq::empty()), paths).1 == (ReconcileStepView::Write { value: spec_replace_value(desired) }),
{
    assert(Seq::<DataPathCandidate>::empty() != desired) by {
        assert(desired.len() > 0);
    }
}

/// A path record as the backend writes it reads back as the same path.
pub proof fn lemma_path_record_reads_back(p: DataPathCandidate)
    ensures
        spec_parse_path(spec_path_record(p)) == Ok::<DataPathCandidate, MappingError>(p),
{
    let a = spec_decimal(p.alloc_id as nat);
    let g = spec_decimal(p.gem_id as nat);
    let v = spec_decimal(p.vlan_id as nat);
    let h = spec_hex(p.pbit_mask as nat, 2);
    let m: Seq<char> = if p.multicast { seq!['1'] } else { seq!['0'] };
    let colon = seq![':'];
    lemma_decimal_reads_back(p.alloc_id as nat);
    lemma_decimal_reads_back(p.gem_id as nat);
    lemma_decimal_reads_back(p.vlan_id as nat);
    lemma_hex_byte_reads_back(p.pbit_mask as nat);
    let r4 = h + colon + m;
    let r3 = v + colon + r4;
    let r2 = g + colon + r3;
    let r1 = a + colon + r2;
    assert(spec_path_record(p) =~= r1);
    assert(forall|i: int| 0 <= i < a.len() ==> a[i] != ':');
    assert(forall|i: int| 0 <= i < g.len() ==> g[i] != ':');
    assert(forall|i: int| 0 <= i < v.len() ==> v[i] != ':');
    assert(forall|i: int| 0 <= i < h.len() ==> h[i] != ':');
    assert(forall|i: int| 0 <= i < m.len() ==> m[i] != ':');
    lemma_split_piece(a, r2, ':', Seq::empty());
    lemma_split_piece(g, r3, ':', Seq::empty());
    lemma_split_piece(v, r4, ':', Seq::empty());
    lemma_split_piece(h, m, ':', Seq::empty());
    lemma_split_end(m, ':', Seq::empty());
    assert(Seq::<char>::empty() + a =~= a);
    assert(Seq::<char>::empty() + g =~= g);
    assert(Seq::<char>::empty() + v =~= v);
    assert(Seq::<char>::empty() + h =~= h);
    assert(Seq::<char>::empty() + m =~= m);
    let parts = spec_split(spec_path_record(p), ':');
    assert(parts =~= seq![a, g, v, h, m]);
    assert(parts[0] == a && parts[1] == g && parts[2] == v && parts[3] == h && parts[4] == m);
    assert(spec_parse_unsigned(a, 10, 0xffff) == Some(p.alloc_id as nat));
    assert(spec_parse_unsigned(g, 10, 0xffff) == Some(p.gem_id as nat));
    assert(spec_parse_unsigned(v, 10, 0xffff) == Some(p.vlan_id as nat));
    assert(spec_parse_unsigned(h, 16, 0xff) == Some(p.pbit_mask as nat));
    assert(seq!['1'] != seq!['0']) by {
        assert(seq!['1'][0] != seq!['0'][0]);
    }
}

/// Unicast paths `i` and `j` (`j` first) on one VLAN that share a P-bit.
pub open spec fn paths_overlap(paths: Seq<DataPathCandidate>, j: int, i: int) -> bool {
    &&& 0 <= j < i < paths.len()
    &&& !paths[i].multicast
    &&& !paths[j].multicast
    &&& paths[j].vlan_id == paths[i].vlan_id
    &&& paths[i].pbit_mask & paths[j].pbit_mask != 0
}

/// With two or more unicast GEM ports the snapshot's paths are installed as
/// they are, unless a unicast path covers no P-bit or two unicast paths on
/// one VLAN share a P-bit: then nothing is installed and the number of GEM
/// ports is reported.
pub proof fn lemma_several_gems_conflict_only_on_one_vlan(paths: Seq<DataPathCandidate>)
    requires
        distinct_gems(paths).len() >= 2,
    ensures
        ({
            let ambiguous = (exists|i: int| 0 <= i < paths.len() && !(#[trigger] paths[i]).multicast && paths[i].pbit_mask == 0)
                || (exists|j: int, i: int| #[trigger] paths_overlap(paths, j, i));
            &&& ambiguous ==> spec_desired(paths) == Err::<Seq<DataPathCandidate>, nat>(distinct_gems(paths).len())
            &&& !ambiguous ==> spec_desired(paths) == Ok::<Seq<DataPathCandidate>, nat>(paths)
        }),
{
    if exists|j: int, i: int| #[trigger] paths_overlap(paths, j, i) {
        let (j, i) = choose|j: int, i: int| #[trigger] paths_overlap(paths, j, i);
        assert(path_conflicts(paths, i));
    }
    if exists|i: int| 0 <= i < paths.len() && !(#[trigger] paths[i]).multicast && paths[i].pbit_mask == 0 {
        let i = choose|i: int| 0 <= i < paths.len() && !(#[trigger] paths[i]).multicast && paths[i].pbit_mask == 0;
        assert(path_conflicts(paths, i));
    }
    if exists|i: int| 0 <= i < paths.len() && #[trigger] path_conflicts(paths, i) {
        let i = choose|i: int| 0 <= i < paths.len() && #[trigger] path_conflicts(paths, i);
        if paths[i].pbit_mask != 0 {
            let j = choose|j: int|
                0 <= j < i && !(#[trigger] paths[j]).multicast && paths[i].pbit_mask & paths[j].pbit_mask != 0
                    && paths[i].vlan_id == paths[j].vlan_id;
            assert(paths_overlap(paths, j, i));
        }
    }
}

/// Unicast paths on different VLANs never conflict: with two or more unicast
/// GEM ports, each unicast path covering some P-bit and no two on one VLAN,
/// the paths are installed as they are.
pub proof fn lemma_distinct_vlans_never_conflict(paths: Seq<DataPathCandidate>)
    requires
        distinct_gems(paths).len() >= 2,
        forall|i: int| 0 <= i < paths.len() && !(#[trigger] paths[i]).multicast ==> paths[i].pbit_mask != 0,
        forall|i: int, j: int| 0 <= j < i < paths.len() && !(#[trigger] paths[i]).multicast && !(#[trigger] paths[j]).multicast
            ==> paths[i].vlan_id != paths[j].vlan_id,
    ensures
        spec_desired(paths) == Ok::<Seq<DataPathCandidate>, nat>(paths),
{
    lemma_several_gems_conflict_only_on_one_vlan(paths);
}

/// Whether a path is multicast.
pub open spec fn is_multicast() -> spec_fn(DataPathCandidate) -> bool {
    |p: DataPathCandidate| p.multicast
}

/// The GEM ports counted for the paths are the GEM ports of the unicast
/// paths, each counted once.
pub proof fn lemma_distinct_gems_are_unicast_gems(paths: Seq<DataPathCandidate>)
    ensures
        distinct_gems(paths).no_duplicates(),
        forall|g: u16| #[trigger] distinct_gems(paths).contains(g)
            <==> exists|i: int| 0 <= i < paths.len() && !(#[trigger] paths[i]).multicast && paths[i].gem_id == g,
    decreases paths.len(),
{
    if paths.len() > 0 {
        let rest = paths.drop_last();
        lemma_distinct_gems_are_unicast_gems(rest);
        let d = distinct_gems(rest);
        let p = paths.last();
        assert forall|g: u16| #[trigger] distinct_gems(paths).contains(g)
            <==> exists|i: int| 0 <= i < paths.len() && !(#[trigger] paths[i]).multicast && paths[i].gem_id == g by {
            if exists|i: int| 0 <= i < paths.len() && !(#[trigger] paths[i]).multicast && paths[i].gem_id == g {
                let i = choose|i: int| 0 <= i < paths.len() && !(#[trigger] paths[i]).multicast && paths[i].gem_id == g;
                if i < rest.len() {
                    assert(rest[i] == paths[i]);
                    assert(d.contains(g));
                    if !p.multicast && !d.contains(p.gem_id) {
                        assert(d.push(p.gem_id)[d.index_of(g)] == g);
                    }
                } else {
                    if !d.contains(p.gem_id) {
                        assert(d.push(p.gem_id)[d.len() as int] == g);
                    }
                }
            }
            if distinct_gems(paths).contains(g) {
                if d.contains(g) {
                    let i = choose|i: int| 0 <= i < rest.len() && !(#[trigger] rest[i]).multicast && rest[i].gem_id == g;
                    assert(paths[i] == rest[i]);
                } else {
                    let k = choose|k: int| 0 <= k < distinct_gems(paths).len() && distinct_gems(paths)[k] == g;
                    assert(k == d.len());
                    assert(paths[paths.len() - 1] == p);
                }
            }
        }
    }
}

/// The first unicast path: no unicast path comes before it.
pub proof fn lemma_first_unicast_is_first(paths: Seq<DataPathCandidate>)
    ensures
        match first_unicast(paths) {
            Some(p) => exists|i: int| 0 <= i < paths.len() && #[trigger] paths[i] == p && !p.multicast
                && forall|j: int| 0 <= j < i ==> (#[trigger] paths[j]).multicast,
            None => forall|i: int| 0 <= i < paths.len() ==> (#[trigger] paths[i]).multicast,
        },
    decreases paths.len(),
{
    if paths.len() > 0 {
        let rest = paths.drop_first();
        lemma_first_unicast_is_first(rest);
        if paths[0].multicast {
            match first_unicast(rest) {
                Some(p) => {
                    let i = choose|i: int| 0 <= i < rest.len() && #[trigger] rest[i] == p && !p.multicast
                        && forall|j: int| 0 <= j < i ==> (#[trigger] rest[j]).multicast;
                    assert(paths[i + 1] == p);
                    assert forall|j: int| 0 <= j < i + 1 implies (#[trigger] paths[j]).multicast by {
                        if j > 0 {
                            assert(paths[j] == rest[j - 1]);
                        }
                    }
                },
                None => {
                    assert forall|i: int| 0 <= i < paths.len() implies (#[trigger] paths[i]).multicast by {
                        if i > 0 {
                            assert(paths[i] == rest[i - 1]);
                        }
                    }
                },
            }
        } else {
            assert(paths[0] == first_unicast(paths).unwrap());
        }
    }
}

/// The multicast paths are the snapshot's multicast paths, in their order.
pub proof fn lemma_multicast_paths_in_order(paths: Seq<DataPathCandidate>)
    ensures
        multicast_paths(paths) == paths.filter(is_multicast()),
    decreases paths.len(),
{
    reveal(Seq::filter);
    if paths.len() > 0 {
        lemma_multicast_paths_in_order(paths.drop_last());
    } else {
        assert(paths.filter(is_multicast()) =~= paths);
    }
}

/// With a single unicast GEM port, the paths installed are the first
/// unicast path of the snapshot, opened to every VLAN and P-bit, followed by
/// the snapshot's multicast paths in their order.
pub proof fn lemma_single_gem_installs_first_unicast_and_multicast(paths: Seq<DataPathCandidate>)
    requires
        distinct_gems(paths).len() == 1,
    ensures
        exists|i: int| 0 <= i < paths.len() && !(#[trigger] paths[i]).multicast
            && (forall|j: int| 0 <= j < i ==> (#[trigger] paths[j]).multicast)
            && spec_desired(paths) == Ok::<Seq<DataPathCandidate>, nat>(
                seq![DataPathCandidate { vlan_id: DATA_PATH_VLAN_ANY, pbit_mask: 0xff, ..paths[i] }] + paths.filter(is_multicast()),
            ),
{
    lemma_distinct_gems_are_unicast_gems(paths);
    lemma_first_unicast_is_first(paths);
    lemma_multicast_paths_in_order(paths);
    let g = distinct_gems(paths)[0];
    assert(distinct_gems(paths).contains(g));
    let k = choose|i: int| 0 <= i < paths.len() && !(#[trigger] paths[i]).multicast && paths[i].gem_id == g;
    assert(first_unicast(paths) is Some);
    let p = first_unicast(paths).unwrap();
    let i = choose|i: int| 0 <= i < paths.len() && #[trigger] paths[i] == p && !p.multicast
        && forall|j: int| 0 <= j < i ==> (#[trigger] paths[j]).multicast;
    assert(paths[i] == p);
}

} // verus!
