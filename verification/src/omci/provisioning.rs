//! The service configuration derived from the OMCI MIB: the boundary between
//! the MIB and the kernel data path.
use vstd::prelude::*;

use super::entity::{attribute_of, AttributeView, RowView};
use super::sorted::{insert_sorted, lemma_insert_sorted_contains, lemma_insert_split, self_key, sorted_by, strict_order};
use super::config::{char_is_whitespace, is_whitespace, lemma_trim_end, str_chars, trim_end};
use super::bytes::slice_bytes;
use super::text::push_char;
use super::mib::{entity_of, RecordView};
use vstd::utf8::{decode_utf8, valid_utf8};
use super::schema::{
    CLASS_ENHANCED_SECURITY_CONTROL, CLASS_EXTENDED_VLAN_TAGGING, CLASS_GEM_INTERWORKING_TP,
    CLASS_GEM_PORT_NETWORK_CTP, CLASS_IEEE_8021P_MAPPER, CLASS_MAC_BRIDGE_PORT_CONFIG_DATA,
    CLASS_MULTICAST_GEM_INTERWORKING_TP, CLASS_MULTICAST_OPERATIONS_PROFILE, CLASS_MULTICAST_SUBSCRIBER_CONFIG,
    CLASS_OLT_G, CLASS_TCONT, CLASS_VLAN_TAGGING_FILTER, CLASS_TRAFFIC_DESCRIPTOR,
};

verus! {

/// Matches untagged upstream frames, and tagged frames after a concrete VID lookup.
pub const DATA_PATH_VLAN_ANY: u16 = 0xffff;

/// One GEM data path the kernel classifies traffic onto.
#[derive(Clone, Copy, Debug, PartialEq, Eq, Structural)]
pub struct DataPathCandidate {
    pub alloc_id: u16,
    pub gem_id: u16,
    pub vlan_id: u16,
    pub pbit_mask: u8,
    /// A multicast GEM interworking point's GEM, which carries downstream multicast.
    pub multicast: bool,
}

#[derive(Debug)]
/// The service configuration the MIB describes.
pub struct ProvisioningSnapshot {
    /// OLT-G text fields without their fixed-width padding.
    pub olt_vendor_id: String,
    pub olt_equipment_id: String,
    pub olt_version: String,
    pub configured_tconts: usize,
    pub gem_ports: usize,
    pub gem_interworking_tps: usize,
    pub vlan_rules: usize,
    /// VLANs of unicast service data paths, in increasing order.
    pub vlan_ids: Vec<u16>,
    /// VLANs of multicast GEMs, in increasing order.
    pub multicast_vlan_ids: Vec<u16>,
    /// IGMP upstream VLANs of the multicast profiles that subscriber configurations reference.
    pub igmp_upstream_vlan_ids: Vec<u16>,
    /// IGMP upstream tag controls: 0 transparent, 1 add, 2 replace TCI, 3 replace VID.
    pub igmp_upstream_tag_controls: Vec<u8>,
    /// The enhanced-security instance is present.
    pub enhanced_security: bool,
    /// Key indexes with at least one broadcast key fragment.
    pub broadcast_key_indexes: Vec<u8>,
    /// The data paths, in increasing order and each once.
    pub data_paths: Vec<DataPathCandidate>,
}

#[derive(Debug)]
pub struct DataPathTableRow {
    pub key: Vec<u8>,
    pub value: Vec<u8>,
}

#[derive(Debug)]
pub struct DataPathAttribute {
    pub index: u8,
    pub value: Vec<u8>,
    pub table_rows: Vec<DataPathTableRow>,
}

#[derive(Debug)]
pub struct DataPathEntity {
    pub class_id: u16,
    pub entity_id: u16,
    pub attributes: Vec<DataPathAttribute>,
}

/// The entities that decide GEM classification, with the data paths they give.
#[derive(Debug)]
pub struct DataPathGraph {
    pub candidates: Vec<DataPathCandidate>,
    pub entities: Vec<DataPathEntity>,
}

impl Default for ProvisioningSnapshot {
    /// The snapshot of a MIB that provisions nothing.
    fn default() -> (snapshot: ProvisioningSnapshot)
        ensures
            snapshot.olt_vendor_id@.len() == 0,
            snapshot.olt_equipment_id@.len() == 0,
            snapshot.olt_version@.len() == 0,
            snapshot.configured_tconts == 0,
            snapshot.gem_ports == 0,
            snapshot.gem_interworking_tps == 0,
            snapshot.vlan_rules == 0,
            snapshot.vlan_ids@.len() == 0,
            snapshot.multicast_vlan_ids@.len() == 0,
            snapshot.igmp_upstream_vlan_ids@.len() == 0,
            snapshot.igmp_upstream_tag_controls@.len() == 0,
            !snapshot.enhanced_security,
            snapshot.broadcast_key_indexes@.len() == 0,
            snapshot.data_paths@.len() == 0,
    {
        ProvisioningSnapshot {
            olt_vendor_id: String::new(),
            olt_equipment_id: String::new(),
            olt_version: String::new(),
            configured_tconts: 0,
            gem_ports: 0,
            gem_interworking_tps: 0,
            vlan_rules: 0,
            vlan_ids: Vec::new(),
            multicast_vlan_ids: Vec::new(),
            igmp_upstream_vlan_ids: Vec::new(),
            igmp_upstream_tag_controls: Vec::new(),
            enhanced_security: false,
            broadcast_key_indexes: Vec::new(),
            data_paths: Vec::new(),
        }
    }
}

impl Default for DataPathGraph {
    /// The graph of a MIB that provisions nothing.
    fn default() -> (graph: DataPathGraph)
        ensures
            graph.candidates@.len() == 0,
            graph.entities@.len() == 0,
    {
        DataPathGraph { candidates: Vec::new(), entities: Vec::new() }
    }
}

/// The order of data paths: multicast last, then by VLAN, Alloc-ID, GEM port and P-bit mask.
pub open spec fn candidate_lt(a: DataPathCandidate, b: DataPathCandidate) -> bool {
    ||| (!a.multicast && b.multicast)
    ||| (a.multicast == b.multicast && a.vlan_id < b.vlan_id)
    ||| (a.multicast == b.multicast && a.vlan_id == b.vlan_id && a.alloc_id < b.alloc_id)
    ||| (a.multicast == b.multicast && a.vlan_id == b.vlan_id && a.alloc_id == b.alloc_id && a.gem_id < b.gem_id)
    ||| (a.multicast == b.multicast && a.vlan_id == b.vlan_id && a.alloc_id == b.alloc_id && a.gem_id == b.gem_id
        && a.pbit_mask < b.pbit_mask)
}

/// A big-endian 16-bit value from the first two bytes.
pub open spec fn spec_be_u16(value: Seq<u8>) -> Option<u16> {
    if value.len() >= 2 { Some((value[0] as int * 256 + value[1] as int) as u16) } else { None }
}

pub open spec fn attr_value(entities: Seq<RecordView>, class_id: u16, entity_id: u16, index: u8) -> Option<Seq<u8>> {
    match entity_of(entities, class_id, entity_id) {
        Some(r) => match attribute_of(r.attributes, index) {
            Some(a) => Some(a.value),
            None => None,
        },
        None => None,
    }
}

pub open spec fn attr_u16(entities: Seq<RecordView>, class_id: u16, entity_id: u16, index: u8) -> Option<u16> {
    match attr_value(entities, class_id, entity_id, index) {
        Some(v) => spec_be_u16(v),
        None => None,
    }
}

pub open spec fn attr_byte(entities: Seq<RecordView>, class_id: u16, entity_id: u16, index: u8) -> Option<u8> {
    match attr_value(entities, class_id, entity_id, index) {
        Some(v) => if v.len() > 0 { Some(v[0]) } else { None },
        None => None,
    }
}

/// A VID that names one VLAN (0 and 4095 are reserved).
pub open spec fn vid_valid(vid: u16) -> bool {
    1 <= vid <= 4094
}

/// The Alloc-ID the OLT assigned to a T-CONT (0xffff is unassigned).
pub open spec fn spec_tcont_alloc(entities: Seq<RecordView>, tcont: u16) -> Option<u16> {
    match attr_u16(entities, CLASS_TCONT, tcont, 1) {
        Some(alloc) => if alloc != 0xffff { Some(alloc) } else { None },
        None => None,
    }
}

/// The GEM port ID of a GEM port network CTP.
pub open spec fn spec_gem_id(entities: Seq<RecordView>, ctp: u16) -> Option<u16> {
    attr_u16(entities, CLASS_GEM_PORT_NETWORK_CTP, ctp, 1)
}

/// The unicast path of a bidirectional GEM port network CTP on an assigned T-CONT.
pub open spec fn spec_unicast(entities: Seq<RecordView>, ctp: u16) -> Option<DataPathCandidate> {
    match (spec_gem_id(entities, ctp), attr_u16(entities, CLASS_GEM_PORT_NETWORK_CTP, ctp, 2),
        attr_byte(entities, CLASS_GEM_PORT_NETWORK_CTP, ctp, 3)) {
        (Some(gem_id), Some(tcont), Some(direction)) => if direction == 3 {
            match spec_tcont_alloc(entities, tcont) {
                Some(alloc_id) => Some(DataPathCandidate { alloc_id, gem_id, vlan_id: DATA_PATH_VLAN_ANY, pbit_mask: 0, multicast: false }),
                None => None,
            }
        } else {
            None
        },
        _ => None,
    }
}

/// The downstream multicast path of a multicast GEM interworking point: the GEM of the CTP it names.
pub open spec fn spec_multicast(entities: Seq<RecordView>, iwtp: u16) -> Option<DataPathCandidate> {
    match attr_u16(entities, CLASS_MULTICAST_GEM_INTERWORKING_TP, iwtp, 1) {
        Some(ctp) => match spec_gem_id(entities, ctp) {
            Some(gem_id) => Some(DataPathCandidate { alloc_id: 0xffff, gem_id, vlan_id: DATA_PATH_VLAN_ANY, pbit_mask: 0xff, multicast: true }),
            None => None,
        },
        None => None,
    }
}

/// The unicast path that P-bit `pbit` of 802.1p mapper `mapper` points to:
/// attribute `pbit + 2` names a GEM interworking point (whose attribute 1 names
/// the CTP) or directly a CTP; 0xffff names nothing.
pub open spec fn spec_pbit_path(entities: Seq<RecordView>, mapper: u16, pbit: u8) -> Option<DataPathCandidate> {
    match attr_u16(entities, CLASS_IEEE_8021P_MAPPER, mapper, (pbit + 2) as u8) {
        Some(pointer) => if pointer == 0xffff {
            None
        } else {
            let ctp = match attr_u16(entities, CLASS_GEM_INTERWORKING_TP, pointer, 1) {
                Some(c) => c,
                None => pointer,
            };
            spec_unicast(entities, ctp)
        },
        None => None,
    }
}

/// The path of GEM `gem_id` through mapper `mapper` over P-bits below `n`: the
/// first P-bit's path to that GEM, with the mask of every P-bit that reaches it.
pub open spec fn spec_mapper_fold(entities: Seq<RecordView>, mapper: u16, gem_id: u16, n: nat) -> Option<DataPathCandidate>
    decreases n,
{
    if n == 0 {
        None
    } else {
        let previous = spec_mapper_fold(entities, mapper, gem_id, (n - 1) as nat);
        let bit = (1u8 << ((n - 1) as u8)) as u8;
        match spec_pbit_path(entities, mapper, (n - 1) as u8) {
            Some(c) => if c.gem_id == gem_id {
                match previous {
                    Some(p) => Some(DataPathCandidate { pbit_mask: p.pbit_mask | bit, ..p }),
                    None => Some(DataPathCandidate { pbit_mask: c.pbit_mask | bit, ..c }),
                }
            } else {
                previous
            },
            None => previous,
        }
    }
}

/// The path of GEM `gem_id` through an existing mapper `mapper`.
pub open spec fn spec_mapper_path(entities: Seq<RecordView>, mapper: u16, gem_id: u16) -> Option<DataPathCandidate> {
    if entity_of(entities, CLASS_IEEE_8021P_MAPPER, mapper) is Some {
        spec_mapper_fold(entities, mapper, gem_id, 8)
    } else {
        None
    }
}

/// `c` is a path of some mapper.
pub open spec fn is_mapper_path(entities: Seq<RecordView>, c: DataPathCandidate) -> bool {
    exists|mapper: u16, gem_id: u16| #[trigger] spec_mapper_path(entities, mapper, gem_id) == Some(c)
}

/// `c` is a path of bridge port `bridge`: through a mapper (type 3), a GEM
/// interworking point (type 5) or a multicast GEM interworking point (type 6)
/// named by attribute 4.
pub open spec fn is_bridge_path(entities: Seq<RecordView>, bridge: u16, c: DataPathCandidate) -> bool {
    match (attr_byte(entities, CLASS_MAC_BRIDGE_PORT_CONFIG_DATA, bridge, 3),
        attr_u16(entities, CLASS_MAC_BRIDGE_PORT_CONFIG_DATA, bridge, 4)) {
        (Some(3), Some(pointer)) => exists|gem_id: u16| #[trigger] spec_mapper_path(entities, pointer, gem_id) == Some(c),
        (Some(5), Some(pointer)) => match attr_u16(entities, CLASS_GEM_INTERWORKING_TP, pointer, 1) {
            Some(ctp) => spec_unicast(entities, ctp) == Some(c),
            None => false,
        },
        (Some(6), Some(pointer)) => spec_multicast(entities, pointer) == Some(c),
        _ => false,
    }
}

/// The operations of a VLAN tagging filter that select by VID.
pub open spec fn filters_by_vid(operation: u8) -> bool {
    operation == 0x03 || operation == 0x04 || operation == 0x0f || operation == 0x10 || operation == 0x16
}

/// The operations of a VLAN tagging filter that select by priority.
pub open spec fn filters_by_pbit(operation: u8) -> bool {
    operation == 0x07 || operation == 0x08 || operation == 0x11 || operation == 0x12
}

/// The number of TCI entries of a VLAN tagging filter that count (at most twelve).
pub open spec fn filter_count(entities: Seq<RecordView>, filter: u16) -> nat {
    let count = match attr_byte(entities, CLASS_VLAN_TAGGING_FILTER, filter, 3) {
        Some(c) => c,
        None => 0,
    };
    if count > 12 { 12 } else { count as nat }
}

pub open spec fn filter_operation(entities: Seq<RecordView>, filter: u16) -> u8 {
    match attr_byte(entities, CLASS_VLAN_TAGGING_FILTER, filter, 2) {
        Some(o) => o,
        None => 0,
    }
}

/// TCI entry `i` of a VLAN filter list.
pub open spec fn filter_tci(list: Seq<u8>, i: int) -> u16 {
    (list[2 * i] as int * 256 + list[2 * i + 1] as int) as u16
}

/// `c` is a path that filter entry `i` (TCI `tci`) gives for bridge path `path`.
pub open spec fn is_filtered_path(operation: u8, tci: u16, path: DataPathCandidate, c: DataPathCandidate) -> bool {
    if filters_by_vid(operation) {
        let vid = tci & 0x0fff;
        vid_valid(vid) && c == (DataPathCandidate {
            vlan_id: vid,
            pbit_mask: if path.pbit_mask == 0 { 0xff } else { path.pbit_mask },
            ..path
        })
    } else if filters_by_pbit(operation) {
        let pbit = ((tci >> 13) & 7) as u8;
        (path.pbit_mask == 0 || path.pbit_mask & ((1u8 << pbit) as u8) != 0)
            && c == (DataPathCandidate { pbit_mask: (1u8 << pbit) as u8, ..path })
    } else {
        false
    }
}

/// `c` is a path the VLAN filter of the same entity ID as bridge port `bridge` selects.
pub open spec fn is_selected_path(entities: Seq<RecordView>, bridge: u16, c: DataPathCandidate) -> bool {
    &&& attr_value(entities, CLASS_VLAN_TAGGING_FILTER, bridge, 1) is Some
    &&& exists|i: int, path: DataPathCandidate|
        0 <= i < filter_count(entities, bridge) && 2 * i + 2 <= filter_list(entities, bridge).len()
            && is_bridge_path(entities, bridge, path)
            && #[trigger] is_filtered_path(filter_operation(entities, bridge), filter_tci(filter_list(entities, bridge), i), path, c)
}

/// The TCI list of the VLAN tagging filter `filter` (attribute 1).
pub open spec fn filter_list(entities: Seq<RecordView>, filter: u16) -> Seq<u8> {
    match attr_value(entities, CLASS_VLAN_TAGGING_FILTER, filter, 1) {
        Some(list) => list,
        None => Seq::empty(),
    }
}

/// A filter entry that selects `c` from a bridge path makes `c` a selected path.
pub proof fn lemma_selected_intro(entities: Seq<RecordView>, bridge: u16, list: Seq<u8>, i: int, path: DataPathCandidate, c: DataPathCandidate)
    requires
        attr_value(entities, CLASS_VLAN_TAGGING_FILTER, bridge, 1) == Some(list),
        0 <= i < filter_count(entities, bridge),
        2 * i + 2 <= list.len(),
        is_bridge_path(entities, bridge, path),
        is_filtered_path(filter_operation(entities, bridge), filter_tci(list, i), path, c),
    ensures
        is_selected_path(entities, bridge, c),
{
    assert(filter_list(entities, bridge) == list);
}

/// The filter of bridge port `bridge` selects at least one path.
pub open spec fn filter_selects(entities: Seq<RecordView>, bridge: u16) -> bool {
    exists|c: DataPathCandidate| #[trigger] is_selected_path(entities, bridge, c)
}

/// `c` is a data path bridge port `bridge` gives: the paths its VLAN filter
/// selects, or all its paths where there is no filter or the filter selects none.
pub open spec fn is_bridge_result(entities: Seq<RecordView>, bridge: u16, c: DataPathCandidate) -> bool {
    &&& entity_of(entities, CLASS_MAC_BRIDGE_PORT_CONFIG_DATA, bridge) is Some
    &&& if filter_selects(entities, bridge) {
        is_selected_path(entities, bridge, c)
    } else {
        is_bridge_path(entities, bridge, c)
    }
}

pub open spec fn is_bridge_data_path(entities: Seq<RecordView>, c: DataPathCandidate) -> bool {
    exists|bridge: u16| #[trigger] is_bridge_result(entities, bridge, c)
}

/// Bridge ports give some unicast path.
pub open spec fn bridges_give_unicast(entities: Seq<RecordView>) -> bool {
    exists|c: DataPathCandidate| #[trigger] is_bridge_data_path(entities, c) && !c.multicast
}

/// `c` is a data path before the multicast GEMs are added: the bridge paths,
/// and every mapper path where bridges give no unicast path.
pub open spec fn is_service_path(entities: Seq<RecordView>, c: DataPathCandidate) -> bool {
    is_bridge_data_path(entities, c) || (!bridges_give_unicast(entities) && is_mapper_path(entities, c))
}

/// `c` is a data path: a service path, or the GEM-wide path of a multicast GEM
/// interworking point whose GEM no multicast service path carries.
pub open spec fn is_data_path(entities: Seq<RecordView>, c: DataPathCandidate) -> bool {
    ||| is_service_path(entities, c)
    ||| ((exists|iwtp: u16| #[trigger] spec_multicast(entities, iwtp) == Some(c))
        && !(exists|d: DataPathCandidate| #[trigger] is_service_path(entities, d) && d.multicast && d.gem_id == c.gem_id))
}

pub open spec fn lt_u16() -> spec_fn(u16, u16) -> bool {
    |a: u16, b: u16| a < b
}

pub open spec fn lt_u8() -> spec_fn(u8, u8) -> bool {
    |a: u8, b: u8| a < b
}

pub open spec fn candidate_order() -> spec_fn(DataPathCandidate, DataPathCandidate) -> bool {
    |a: DataPathCandidate, b: DataPathCandidate| candidate_lt(a, b)
}

pub proof fn lemma_orders()
    ensures
        strict_order(lt_u16()),
        strict_order(lt_u8()),
        strict_order(candidate_order()),
{
}

/// A set of 16-bit values held in increasing order.
pub open spec fn set_u16(v: Seq<u16>) -> bool {
    sorted_by(v, self_key(), lt_u16())
}

pub open spec fn set_u8(v: Seq<u8>) -> bool {
    sorted_by(v, self_key(), lt_u8())
}

pub open spec fn set_candidates(v: Seq<DataPathCandidate>) -> bool {
    sorted_by(v, self_key(), candidate_order())
}

/// Adds `x` to an increasing sequence of distinct values.
pub fn insert_u16(set: &mut Vec<u16>, x: u16)
    requires
        set_u16(old(set)@),
    ensures
        set_u16(final(set)@),
        forall|y: u16| #[trigger] final(set)@.contains(y) <==> (old(set)@.contains(y) || y == x),
{
    let ghost v = set@;
    proof {
        lemma_orders();
        lemma_insert_sorted_contains(v, x, lt_u16());
    }
    let mut i: usize = 0;
    while i < set.len() && set[i] < x
        invariant
            i <= set.len(),
            v == set@,
            forall|j: int| 0 <= j < i ==> lt_u16()(self_key()(#[trigger] v[j]), self_key()(x)),
        decreases set.len() - i,
    {
        i += 1;
    }
    proof {
        lemma_insert_split(v, x, i as int, self_key(), lt_u16());
    }
    let ghost tail = v.skip(i as int);
    if i < set.len() && set[i] == x {
        assert(insert_sorted(tail, x, self_key(), lt_u16()) == seq![x] + tail.drop_first());
        assert(v =~= v.take(i as int) + (seq![x] + tail.drop_first()));
    } else if i < set.len() {
        assert(insert_sorted(tail, x, self_key(), lt_u16()) == seq![x] + tail);
        set.insert(i, x);
        assert(set@ =~= v.take(i as int) + (seq![x] + tail));
    } else {
        assert(tail =~= Seq::<u16>::empty());
        set.push(x);
        assert(set@ =~= v.take(i as int) + seq![x]);
    }
}

/// Adds `x` to an increasing sequence of distinct values.
pub fn insert_u8(set: &mut Vec<u8>, x: u8)
    requires
        set_u8(old(set)@),
    ensures
        set_u8(final(set)@),
        forall|y: u8| #[trigger] final(set)@.contains(y) <==> (old(set)@.contains(y) || y == x),
{
    let ghost v = set@;
    proof {
        lemma_orders();
        lemma_insert_sorted_contains(v, x, lt_u8());
    }
    let mut i: usize = 0;
    while i < set.len() && set[i] < x
        invariant
            i <= set.len(),
            v == set@,
            forall|j: int| 0 <= j < i ==> lt_u8()(self_key()(#[trigger] v[j]), self_key()(x)),
        decreases set.len() - i,
    {
        i += 1;
    }
    proof {
        lemma_insert_split(v, x, i as int, self_key(), lt_u8());
    }
    let ghost tail = v.skip(i as int);
    if i < set.len() && set[i] == x {
        assert(insert_sorted(tail, x, self_key(), lt_u8()) == seq![x] + tail.drop_first());
        assert(v =~= v.take(i as int) + (seq![x] + tail.drop_first()));
    } else if i < set.len() {
        assert(insert_sorted(tail, x, self_key(), lt_u8()) == seq![x] + tail);
        set.insert(i, x);
        assert(set@ =~= v.take(i as int) + (seq![x] + tail));
    } else {
        assert(tail =~= Seq::<u8>::empty());
        set.push(x);
        assert(set@ =~= v.take(i as int) + seq![x]);
    }
}

fn candidate_less(a: DataPathCandidate, b: DataPathCandidate) -> (less: bool)
    ensures
        less == candidate_lt(a, b),
{
    (!a.multicast && b.multicast)
        || (a.multicast == b.multicast && a.vlan_id < b.vlan_id)
        || (a.multicast == b.multicast && a.vlan_id == b.vlan_id && a.alloc_id < b.alloc_id)
        || (a.multicast == b.multicast && a.vlan_id == b.vlan_id && a.alloc_id == b.alloc_id && a.gem_id < b.gem_id)
        || (a.multicast == b.multicast && a.vlan_id == b.vlan_id && a.alloc_id == b.alloc_id && a.gem_id == b.gem_id
            && a.pbit_mask < b.pbit_mask)
}

/// Adds `x` to an increasing sequence of distinct data paths.
pub fn insert_candidate(set: &mut Vec<DataPathCandidate>, x: DataPathCandidate)
    requires
        set_candidates(old(set)@),
    ensures
        set_candidates(final(set)@),
        forall|y: DataPathCandidate| #[trigger] final(set)@.contains(y) <==> (old(set)@.contains(y) || y == x),
{
    let ghost v = set@;
    proof {
        lemma_orders();
        lemma_insert_sorted_contains(v, x, candidate_order());
    }
    let mut i: usize = 0;
    while i < set.len() && candidate_less(set[i], x)
        invariant
            i <= set.len(),
            v == set@,
            forall|j: int| 0 <= j < i ==> candidate_order()(self_key()(#[trigger] v[j]), self_key()(x)),
        decreases set.len() - i,
    {
        i += 1;
    }
    proof {
        lemma_insert_split(v, x, i as int, self_key(), candidate_order());
    }
    let ghost tail = v.skip(i as int);
    if i < set.len() && set[i] == x {
        assert(insert_sorted(tail, x, self_key(), candidate_order()) == seq![x] + tail.drop_first());
        assert(v =~= v.take(i as int) + (seq![x] + tail.drop_first()));
    } else if i < set.len() {
        assert(insert_sorted(tail, x, self_key(), candidate_order()) == seq![x] + tail);
        set.insert(i, x);
        assert(set@ =~= v.take(i as int) + (seq![x] + tail));
    } else {
        assert(tail =~= Seq::<DataPathCandidate>::empty());
        set.push(x);
        assert(set@ =~= v.take(i as int) + seq![x]);
    }
}

/// The bytes of an OMCI text field before its first NUL or 0xff padding byte.
pub open spec fn spec_text_end(value: Seq<u8>) -> nat
    decreases value.len(),
{
    if value.len() == 0 || value[0] == 0 || value[0] == 0xff {
        0
    } else {
        1 + spec_text_end(value.drop_first())
    }
}

/// What `String::from_utf8_lossy` gives for `bytes`: their text where they are
/// valid UTF-8, with each invalid sequence replaced by U+FFFD otherwise.
pub uninterp spec fn utf8_lossy(bytes: Seq<u8>) -> Seq<char>;

/// `String::from_utf8_lossy`; its result is named by `utf8_lossy`, and for
/// valid UTF-8 it is the decoded text.
#[verifier::external_body]
pub fn decode_lossy(bytes: &[u8]) -> (text: String)
    ensures
        text@ == utf8_lossy(bytes@),
        valid_utf8(bytes@) ==> text@ == decode_utf8(bytes@),
{
    String::from_utf8_lossy(bytes).into_owned()
}

/// An OMCI text field as text, without padding and trailing white space.
pub open spec fn spec_omci_text(value: Seq<u8>) -> Seq<char> {
    trim_end(utf8_lossy(value.take(spec_text_end(value) as int)))
}

/// OLT-G text attribute `index`, empty where the OLT-G instance or the attribute is absent.
pub open spec fn spec_olt_text(entities: Seq<RecordView>, index: u8) -> Seq<char> {
    match attr_value(entities, CLASS_OLT_G, 0, index) {
        Some(v) => spec_omci_text(v),
        None => Seq::empty(),
    }
}

/// A T-CONT with an assigned Alloc-ID.
pub open spec fn tcont_configured(r: RecordView) -> bool {
    &&& r.class_id == CLASS_TCONT
    &&& attribute_of(r.attributes, 1) matches Some(a)
    &&& spec_be_u16(a.value) matches Some(alloc)
    &&& alloc != 0xffff
}

pub open spec fn tcont_filter() -> spec_fn(RecordView) -> bool {
    |r: RecordView| tcont_configured(r)
}

pub open spec fn gem_port_filter() -> spec_fn(RecordView) -> bool {
    |r: RecordView| is_gem_port(r)
}

pub open spec fn interworking_tp_filter() -> spec_fn(RecordView) -> bool {
    |r: RecordView| is_interworking_tp(r)
}

pub open spec fn is_gem_port(r: RecordView) -> bool {
    r.class_id == CLASS_GEM_PORT_NETWORK_CTP
}

pub open spec fn is_interworking_tp(r: RecordView) -> bool {
    r.class_id == CLASS_GEM_INTERWORKING_TP || r.class_id == CLASS_MULTICAST_GEM_INTERWORKING_TP
}

/// The VLAN rules of one instance: the rows of an extended VLAN tagging
/// operation table, or the entry count of a VLAN tagging filter (at most twelve).
pub open spec fn record_vlan_rules(r: RecordView) -> nat {
    if r.class_id == CLASS_EXTENDED_VLAN_TAGGING {
        match attribute_of(r.attributes, 6) {
            Some(a) => a.rows.len(),
            None => 0,
        }
    } else if r.class_id == CLASS_VLAN_TAGGING_FILTER {
        let count: u8 = match attribute_of(r.attributes, 3) {
            Some(a) => if a.value.len() > 0 { a.value[0] } else { 0 },
            None => 0,
        };
        if count > 12 { 12 } else { count as nat }
    } else {
        0
    }
}

pub open spec fn spec_vlan_rule_sum(entities: Seq<RecordView>) -> nat
    decreases entities.len(),
{
    if entities.len() == 0 {
        0
    } else {
        spec_vlan_rule_sum(entities.drop_last()) + record_vlan_rules(entities.last())
    }
}

/// The big-endian 32-bit word of an extended VLAN tagging row at byte `4 * k`.
pub open spec fn row_word(row: Seq<u8>, k: int) -> u32 {
    (row[4 * k] as int * 0x1000000 + row[4 * k + 1] as int * 0x10000 + row[4 * k + 2] as int * 0x100 + row[4 * k + 3] as int) as u32
}

/// VID field `k` of an extended VLAN tagging row: the filter VIDs sit in bits
/// 27..15 of the first two words, the treatment VIDs in bits 15..3 of the last two.
pub open spec fn extended_vid(row: Seq<u8>, k: int) -> u16 {
    if k < 2 { ((row_word(row, k) >> 15u32) & 0x1fff) as u16 } else { ((row_word(row, k) >> 3u32) & 0x1fff) as u16 }
}

pub open spec fn row_gives_vid(row: Seq<u8>, vid: u16) -> bool {
    &&& row.len() == 16
    &&& vid_valid(vid)
    &&& (extended_vid(row, 0) == vid || extended_vid(row, 1) == vid || extended_vid(row, 2) == vid || extended_vid(row, 3) == vid)
}

pub open spec fn record_gives_vid(r: RecordView, vid: u16) -> bool {
    &&& r.class_id == CLASS_EXTENDED_VLAN_TAGGING
    &&& attribute_of(r.attributes, 6) matches Some(a)
    &&& exists|i: int| 0 <= i < a.rows.len() && row_gives_vid(#[trigger] a.rows[i].1, vid)
}

/// A unicast VLAN: named by an extended VLAN tagging rule or by a unicast data path.
pub open spec fn is_vlan_id(entities: Seq<RecordView>, vid: u16) -> bool {
    ||| exists|j: int| 0 <= j < entities.len() && record_gives_vid(#[trigger] entities[j], vid)
    ||| exists|c: DataPathCandidate| #[trigger] is_data_path(entities, c) && !c.multicast && vid_valid(c.vlan_id) && c.vlan_id == vid
}

/// The multicast operations profile a multicast subscriber configuration names.
pub open spec fn subscriber_profile(entities: Seq<RecordView>, r: RecordView) -> Option<RecordView> {
    if r.class_id == CLASS_MULTICAST_SUBSCRIBER_CONFIG {
        match attribute_of(r.attributes, 2) {
            Some(a) => match spec_be_u16(a.value) {
                Some(profile) => entity_of(entities, CLASS_MULTICAST_OPERATIONS_PROFILE, profile),
                None => None,
            },
            None => None,
        }
    } else {
        None
    }
}

/// The VID of a 24-byte multicast access control row (its TCI sits at offset 4).
pub open spec fn acl_row_vid(row: Seq<u8>) -> Option<u16> {
    if row.len() == 24 {
        let vid = ((row[4] as int * 256 + row[5] as int) as u16) & 0x0fff;
        if vid_valid(vid) { Some(vid) } else { None }
    } else {
        None
    }
}

pub open spec fn table_acl_vid(profile: RecordView, index: u8, vid: u16) -> bool {
    &&& attribute_of(profile.attributes, index) matches Some(a)
    &&& exists|i: int| 0 <= i < a.rows.len() && acl_row_vid(#[trigger] a.rows[i].1) == Some(vid)
}

/// A VLAN of the static or dynamic access control table of a referenced profile.
pub open spec fn record_acl_vid(entities: Seq<RecordView>, r: RecordView, vid: u16) -> bool {
    &&& subscriber_profile(entities, r) matches Some(p)
    &&& (table_acl_vid(p, 7, vid) || table_acl_vid(p, 8, vid))
}

/// A multicast VLAN: named by an access control row or by a multicast data path.
pub open spec fn is_multicast_vlan_id(entities: Seq<RecordView>, vid: u16) -> bool {
    ||| exists|j: int| 0 <= j < entities.len() && record_acl_vid(entities, #[trigger] entities[j], vid)
    ||| exists|c: DataPathCandidate| #[trigger] is_data_path(entities, c) && c.multicast && vid_valid(c.vlan_id) && c.vlan_id == vid
}

/// The upstream IGMP tag control of a referenced profile (attribute 5), where it is 0..=3.
pub open spec fn record_tag_control(entities: Seq<RecordView>, r: RecordView) -> Option<u8> {
    match subscriber_profile(entities, r) {
        Some(p) => match attribute_of(p.attributes, 5) {
            Some(a) => if a.value.len() > 0 && a.value[0] <= 3 { Some(a.value[0]) } else { None },
            None => None,
        },
        None => None,
    }
}

/// The upstream IGMP VLAN of a referenced profile that tags upstream IGMP (attribute 4).
pub open spec fn record_igmp_vid(entities: Seq<RecordView>, r: RecordView) -> Option<u16> {
    match (record_tag_control(entities, r), subscriber_profile(entities, r)) {
        (Some(tag), Some(p)) => if tag == 0 {
            None
        } else {
            match attribute_of(p.attributes, 4) {
                Some(a) => match spec_be_u16(a.value) {
                    Some(tci) => if vid_valid(tci & 0x0fff) { Some(tci & 0x0fff) } else { None },
                    None => None,
                },
                None => None,
            }
        },
        _ => None,
    }
}

/// A broadcast key index: bits 7..6 of a broadcast key row identifier.
pub open spec fn is_broadcast_key_index(entities: Seq<RecordView>, index: u8) -> bool {
    &&& entity_of(entities, CLASS_ENHANCED_SECURITY_CONTROL, 0) matches Some(r)
    &&& attribute_of(r.attributes, 11) matches Some(a)
    &&& exists|i: int| 0 <= i < a.rows.len() && (#[trigger] a.rows[i]).0.len() > 0 && a.rows[i].0[0] >> 6u8 == index
}

/// `snapshot` is the provisioning snapshot of a MIB holding `entities`.
pub open spec fn snapshot_of(entities: Seq<RecordView>, snapshot: ProvisioningSnapshot) -> bool {
    &&& snapshot.olt_vendor_id@ == spec_olt_text(entities, 1)
    &&& snapshot.olt_equipment_id@ == spec_olt_text(entities, 2)
    &&& snapshot.olt_version@ == spec_olt_text(entities, 3)
    &&& snapshot.configured_tconts == entities.filter(tcont_filter()).len()
    &&& snapshot.gem_ports == entities.filter(gem_port_filter()).len()
    &&& snapshot.gem_interworking_tps == entities.filter(interworking_tp_filter()).len()
    &&& snapshot.vlan_rules == if spec_vlan_rule_sum(entities) > usize::MAX { usize::MAX as nat } else { spec_vlan_rule_sum(entities) }
    &&& set_u16(snapshot.vlan_ids@)
    &&& forall|vid: u16| #[trigger] snapshot.vlan_ids@.contains(vid) <==> is_vlan_id(entities, vid)
    &&& set_u16(snapshot.multicast_vlan_ids@)
    &&& forall|vid: u16| #[trigger] snapshot.multicast_vlan_ids@.contains(vid) <==> is_multicast_vlan_id(entities, vid)
    &&& set_u16(snapshot.igmp_upstream_vlan_ids@)
    &&& forall|vid: u16| #[trigger] snapshot.igmp_upstream_vlan_ids@.contains(vid)
        <==> exists|j: int| 0 <= j < entities.len() && record_igmp_vid(entities, #[trigger] entities[j]) == Some(vid)
    &&& set_u8(snapshot.igmp_upstream_tag_controls@)
    &&& forall|tag: u8| #[trigger] snapshot.igmp_upstream_tag_controls@.contains(tag)
        <==> exists|j: int| 0 <= j < entities.len() && record_tag_control(entities, #[trigger] entities[j]) == Some(tag)
    &&& snapshot.enhanced_security == entity_of(entities, CLASS_ENHANCED_SECURITY_CONTROL, 0) is Some
    &&& set_u8(snapshot.broadcast_key_indexes@)
    &&& forall|index: u8| #[trigger] snapshot.broadcast_key_indexes@.contains(index) <==> is_broadcast_key_index(entities, index)
    &&& set_candidates(snapshot.data_paths@)
    &&& forall|c: DataPathCandidate| #[trigger] snapshot.data_paths@.contains(c) <==> is_data_path(entities, c)
}

proof fn lemma_text_end(value: Seq<u8>, k: int)
    requires
        0 <= k <= value.len(),
        forall|j: int| 0 <= j < k ==> #[trigger] value[j] != 0 && value[j] != 0xff,
        k == value.len() || value[k] == 0 || value[k] == 0xff,
    ensures
        spec_text_end(value) == k,
    decreases k,
{
    if k > 0 {
        let t = value.drop_first();
        assert forall|j: int| 0 <= j < k - 1 implies #[trigger] t[j] != 0 && t[j] != 0xff by {
            assert(t[j] == value[j + 1]);
        }
        if k < value.len() {
            assert(t[k - 1] == value[k]);
        }
        lemma_text_end(t, k - 1);
        assert(value[0] != 0 && value[0] != 0xff);
    }
}

/// An OMCI text field as text: the bytes before the padding, decoded, without trailing white space.
pub fn omci_text(value: &[u8]) -> (text: String)
    ensures
        text@ == spec_omci_text(value@),
{
    let mut end: usize = 0;
    while end < value.len() && value[end] != 0 && value[end] != 0xff
        invariant
            end <= value@.len(),
            forall|j: int| 0 <= j < end ==> #[trigger] value@[j] != 0 && value@[j] != 0xff,
        decreases value.len() - end,
    {
        end += 1;
    }
    proof {
        lemma_text_end(value@, end as int);
    }
    let head = slice_bytes(value, 0, end);
    assert(head@ =~= value@.take(end as int));
    let decoded = decode_lossy(head.as_slice());
    let chars = str_chars(decoded.as_str());
    let mut keep: usize = chars.len();
    while keep > 0 && char_is_whitespace(chars[keep - 1])
        invariant
            keep <= chars@.len(),
            forall|k: int| keep <= k < chars@.len() ==> is_whitespace(#[trigger] chars@[k]),
        decreases keep,
    {
        keep -= 1;
    }
    proof {
        lemma_trim_end(chars@, keep as int);
    }
    let mut text = String::new();
    let mut i: usize = 0;
    while i < keep
        invariant
            i <= keep <= chars@.len(),
            text@ == chars@.take(i as int),
        decreases keep - i,
    {
        push_char(&mut text, chars[i]);
        assert(text@ =~= chars@.take(i + 1));
        i += 1;
    }
    text
}

pub ghost struct DataPathAttributeView {
    pub index: u8,
    pub value: Seq<u8>,
    pub rows: Seq<RowView>,
}

pub ghost struct DataPathEntityView {
    pub class_id: u16,
    pub entity_id: u16,
    pub attributes: Seq<DataPathAttributeView>,
}

impl View for DataPathTableRow {
    type V = RowView;

    open spec fn view(&self) -> RowView {
        (self.key@, self.value@)
    }
}

impl View for DataPathAttribute {
    type V = DataPathAttributeView;

    open spec fn view(&self) -> DataPathAttributeView {
        DataPathAttributeView {
            index: self.index,
            value: self.value@,
            rows: self.table_rows@.map_values(|r: DataPathTableRow| r@),
        }
    }
}

impl View for DataPathEntity {
    type V = DataPathEntityView;

    open spec fn view(&self) -> DataPathEntityView {
        DataPathEntityView {
            class_id: self.class_id,
            entity_id: self.entity_id,
            attributes: self.attributes@.map_values(|a: DataPathAttribute| a@),
        }
    }
}

pub open spec fn entity_views(entities: Seq<DataPathEntity>) -> Seq<DataPathEntityView> {
    entities.map_values(|e: DataPathEntity| e@)
}

/// The classes that decide GEM classification.
pub open spec fn in_graph(class_id: u16) -> bool {
    class_id == CLASS_MAC_BRIDGE_PORT_CONFIG_DATA || class_id == CLASS_VLAN_TAGGING_FILTER
        || class_id == CLASS_IEEE_8021P_MAPPER || class_id == CLASS_EXTENDED_VLAN_TAGGING
        || class_id == CLASS_GEM_INTERWORKING_TP || class_id == CLASS_MULTICAST_GEM_INTERWORKING_TP
        || class_id == CLASS_MULTICAST_OPERATIONS_PROFILE || class_id == CLASS_MULTICAST_SUBSCRIBER_CONFIG
        || class_id == CLASS_GEM_PORT_NETWORK_CTP || class_id == CLASS_TRAFFIC_DESCRIPTOR
}

pub open spec fn graph_filter() -> spec_fn(RecordView) -> bool {
    |r: RecordView| in_graph(r.class_id)
}

pub open spec fn graph_attribute(a: AttributeView) -> DataPathAttributeView {
    DataPathAttributeView { index: a.index, value: a.value, rows: a.rows }
}

/// An instance as the graph exports it: its attributes in index order, with their values and rows.
pub open spec fn graph_entity(r: RecordView) -> DataPathEntityView {
    DataPathEntityView {
        class_id: r.class_id,
        entity_id: r.entity_id,
        attributes: r.attributes.map_values(|a: AttributeView| graph_attribute(a)),
    }
}

/// The graph's entities: the instances of the graph classes, in key order.
pub open spec fn spec_graph_entities(entities: Seq<RecordView>) -> Seq<DataPathEntityView> {
    entities.filter(graph_filter()).map_values(|r: RecordView| graph_entity(r))
}

} // verus!
