//! Attribute writes of the enhanced-security control entity (Class 332,
//! instance 0) and the challenge tables its authentication handshake reads.
use vstd::prelude::*;

use super::bytes::copy_bytes;
use super::entity::{
    attribute_of, attributes_replace, attributes_wf, lemma_attribute_of, lemma_replace, rows_insert, rows_remove,
    rows_sorted, rows_view, same_layout, value_present, Attribute, AttributeView, ManagedEntity, RowView,
};

verus! {

/// One attribute write of a Set request, in the order the mask lists it.
pub ghost struct SetUpdateView {
    pub index: u8,
    pub value: Seq<u8>,
    pub is_table: bool,
}

pub struct SetUpdate {
    pub index: u8,
    pub value: Vec<u8>,
    pub is_table: bool,
}

impl View for SetUpdate {
    type V = SetUpdateView;

    open spec fn view(&self) -> SetUpdateView {
        SetUpdateView { index: self.index, value: self.value@, is_table: self.is_table }
    }
}

pub open spec fn update_views(updates: Seq<SetUpdate>) -> Seq<SetUpdateView> {
    updates.map_values(|u: SetUpdate| u@)
}

/// The enhanced-security instance has the state and challenge attributes the
/// handshake writes, with non-empty state values.
pub open spec fn security_record_wf(attributes: Seq<AttributeView>) -> bool {
    &&& value_present(attributes, 3)
    &&& value_present(attributes, 8)
    &&& value_present(attributes, 9)
    &&& attribute_of(attributes, 3) is Some
    &&& attribute_of(attributes, 5) is Some
    &&& attribute_of(attributes, 6) is Some
    &&& attribute_of(attributes, 8) is Some
}

/// Table writes carry at least a row key; state writes carry at least one byte.
pub open spec fn security_updates_fit(updates: Seq<SetUpdateView>) -> bool {
    forall|i: int| 0 <= i < updates.len() ==> {
        let u = #[trigger] updates[i];
        &&& (u.is_table ==> u.value.len() >= 8)
        &&& (!u.is_table && (u.index == 3 || u.index == 8) ==> u.value.len() >= 1)
    }
}

/// The outcome of applying enhanced-security writes: the attributes, whether a
/// rising edge of the OLT state (attribute 3) or of the OLT result state
/// (attribute 8) asks for a handshake step, and whether every write was accepted.
pub ghost struct SecurityWrite {
    pub attributes: Seq<AttributeView>,
    pub step1: bool,
    pub step2: bool,
    pub ok: bool,
}

pub open spec fn write_failed(attributes: Seq<AttributeView>) -> SecurityWrite {
    SecurityWrite { attributes, step1: false, step2: false, ok: false }
}

pub open spec fn write_done(attributes: Seq<AttributeView>) -> SecurityWrite {
    SecurityWrite { attributes, step1: false, step2: false, ok: true }
}

/// The first value byte of attribute `index` set to `byte`; `None` where the attribute is absent.
pub open spec fn spec_set_first_byte(attributes: Seq<AttributeView>, index: u8, byte: u8) -> Option<Seq<AttributeView>> {
    match attribute_of(attributes, index) {
        None => None,
        Some(a) => Some(attributes_replace(attributes, AttributeView { value: a.value.update(0, byte), ..a })),
    }
}

/// A write of a status attribute back to zero after its input changed.
pub open spec fn reset_status(attributes: Seq<AttributeView>, status: u8) -> SecurityWrite {
    match spec_set_first_byte(attributes, status, 0) {
        None => write_failed(attributes),
        Some(a) => write_done(a),
    }
}

/// One enhanced-security write.
///
/// OLT challenge rows (attribute 2) and OLT authentication result rows
/// (attribute 7) are keyed by their first byte, a first byte of zero clears the
/// table, and the matching state attribute (3 or 8) returns to zero. A write of
/// the OLT crypto capabilities (attribute 1) also returns attribute 3 to zero.
/// Broadcast key rows (attribute 11) are keyed by their second byte; the low two
/// bits of the first byte set the row, clear it, or clear the table. A write of
/// 0 or 1 to a state attribute records it; a change from 0 to 1 starts a
/// handshake step. Every other write is refused.
pub open spec fn spec_security_write(attributes: Seq<AttributeView>, u: SetUpdateView) -> SecurityWrite {
    if (u.index == 2 || u.index == 7) && u.is_table {
        match attribute_of(attributes, u.index) {
            None => write_failed(attributes),
            Some(a) => {
                let rows = if u.value[0] == 0 { Seq::<RowView>::empty() } else { rows_insert(a.rows, seq![u.value[0]], u.value) };
                reset_status(attributes_replace(attributes, AttributeView { rows, ..a }), if u.index == 2 { 3 } else { 8 })
            },
        }
    } else if u.index == 1 && !u.is_table {
        match attribute_of(attributes, 1) {
            None => write_failed(attributes),
            Some(a) => reset_status(attributes_replace(attributes, AttributeView { value: u.value, ..a }), 3),
        }
    } else if u.index == 11 && u.is_table {
        match attribute_of(attributes, 11) {
            None => write_failed(attributes),
            Some(a) => {
                let control = u.value[0] & 3;
                let key = seq![u.value[1]];
                if control == 0 {
                    write_done(attributes_replace(attributes, AttributeView { rows: rows_insert(a.rows, key, u.value), ..a }))
                } else if control == 1 {
                    write_done(attributes_replace(attributes, AttributeView { rows: rows_remove(a.rows, key), ..a }))
                } else if control == 2 {
                    write_done(attributes_replace(attributes, AttributeView { rows: Seq::empty(), ..a }))
                } else {
                    write_failed(attributes)
                }
            },
        }
    } else if (u.index == 3 || u.index == 8) && !u.is_table && u.value[0] <= 1 {
        match attribute_of(attributes, u.index) {
            None => write_failed(attributes),
            Some(a) => {
                let rising = a.value[0] == 0 && u.value[0] == 1;
                SecurityWrite {
                    attributes: attributes_replace(attributes, AttributeView { value: a.value.update(0, u.value[0]), ..a }),
                    step1: u.index == 3 && rising,
                    step2: u.index == 8 && rising,
                    ok: true,
                }
            },
        }
    } else {
        write_failed(attributes)
    }
}

/// The writes applied in order, stopping at the first refused one (whose
/// partial effect stays).
pub open spec fn spec_security_writes(attributes: Seq<AttributeView>, updates: Seq<SetUpdateView>) -> SecurityWrite
    decreases updates.len(),
{
    if updates.len() == 0 {
        write_done(attributes)
    } else {
        let previous = spec_security_writes(attributes, updates.drop_last());
        if !previous.ok {
            previous
        } else {
            let w = spec_security_write(previous.attributes, updates.last());
            SecurityWrite {
                attributes: w.attributes,
                step1: previous.step1 || w.step1,
                step2: previous.step2 || w.step2,
                ok: w.ok,
            }
        }
    }
}

/// A 16-byte challenge from a table row: bytes 1..17 of an indexed row, the
/// first 16 bytes otherwise.
pub open spec fn spec_challenge(row: Seq<u8>, indexed: bool) -> Option<Seq<u8>> {
    if indexed {
        if row.len() >= 17 { Some(row.subrange(1, 17)) } else { None }
    } else {
        if row.len() >= 16 { Some(row.subrange(0, 16)) } else { None }
    }
}

pub open spec fn spec_challenges_of_rows(rows: Seq<RowView>, indexed: bool) -> Option<Seq<Seq<u8>>>
    decreases rows.len(),
{
    if rows.len() == 0 {
        Some(Seq::empty())
    } else {
        match (spec_challenges_of_rows(rows.drop_last(), indexed), spec_challenge(rows.last().1, indexed)) {
            (Some(previous), Some(c)) => Some(previous.push(c)),
            _ => None,
        }
    }
}

/// The challenges of table attribute `index` in row order; `None` where the
/// attribute is absent, a row is too short, or the table is empty.
pub open spec fn spec_challenges(attributes: Seq<AttributeView>, index: u8, indexed: bool) -> Option<Seq<Seq<u8>>> {
    match attribute_of(attributes, index) {
        None => None,
        Some(a) => match spec_challenges_of_rows(a.rows, indexed) {
            Some(c) => if c.len() > 0 { Some(c) } else { None },
            None => None,
        },
    }
}

/// ONU challenge rows keyed 1, 2, ... (the key byte wraps after 255).
pub open spec fn challenge_rows(challenges: Seq<Seq<u8>>) -> Seq<RowView>
    decreases challenges.len(),
{
    if challenges.len() == 0 {
        Seq::empty()
    } else {
        rows_insert(challenge_rows(challenges.drop_last()), seq![(challenges.len() % 256) as u8], challenges.last())
    }
}

/// The ONU challenge table (attribute 5) and the ONU authentication result
/// table (attribute 6) replaced; `false` where either attribute is absent.
pub open spec fn spec_install_challenges(
    attributes: Seq<AttributeView>,
    challenges: Seq<Seq<u8>>,
    result: Seq<u8>,
) -> (Seq<AttributeView>, bool) {
    match attribute_of(attributes, 5) {
        None => (attributes, false),
        Some(a5) => {
            let with_challenges = attributes_replace(attributes, AttributeView { rows: challenge_rows(challenges), ..a5 });
            match attribute_of(with_challenges, 6) {
                None => (with_challenges, false),
                Some(a6) => (
                    attributes_replace(with_challenges, AttributeView { rows: seq![(seq![1u8], result)], ..a6 }),
                    true,
                ),
            }
        },
    }
}

/// The OLT authentication result the OLT wrote: bytes 1..17 of the first row of attribute 7.
pub open spec fn spec_received_result(attributes: Seq<AttributeView>) -> Option<Seq<u8>> {
    match attribute_of(attributes, 7) {
        None => None,
        Some(a) => if a.rows.len() > 0 && a.rows[0].1.len() >= 17 { Some(a.rows[0].1.subrange(1, 17)) } else { None },
    }
}

/// Replaces the existing attribute of the same index.
pub fn replace_existing(entity: &mut ManagedEntity, attribute: Attribute)
    requires
        attributes_wf(old(entity)@),
        attribute_of(old(entity)@, attribute@.index) is Some,
        rows_sorted(attribute@.rows),
    ensures
        final(entity)@ == attributes_replace(old(entity)@, attribute@),
        attributes_wf(final(entity)@),
        attribute_of(old(entity)@, attribute@.index) matches Some(o) && o.writable == attribute@.writable
            && o.table_row_len == attribute@.table_row_len ==> same_layout(old(entity)@, final(entity)@),
{
    let ghost v = entity@;
    let ghost a = attribute@;
    proof {
        lemma_replace(v, a);
    }
    let ai = entity.find(attribute.index()).unwrap();
    entity.replace_at(ai, attribute);
    assert(entity@ =~= attributes_replace(v, a));
}

/// Sets the first value byte of attribute `index`; `false` where it is absent.
pub fn set_first_byte(entity: &mut ManagedEntity, index: u8, byte: u8) -> (present: bool)
    requires
        attributes_wf(old(entity)@),
        value_present(old(entity)@, index),
    ensures
        present == spec_set_first_byte(old(entity)@, index, byte) is Some,
        final(entity)@ == match spec_set_first_byte(old(entity)@, index, byte) {
            Some(a) => a,
            None => old(entity)@,
        },
        attributes_wf(final(entity)@),
        same_layout(old(entity)@, final(entity)@),
{
    match entity.find(index) {
        None => false,
        Some(ai) => {
            let current = entity.attribute_at(ai);
            let mut value = copy_bytes(current.value().as_slice());
            value.set(0, byte);
            let updated = current.duplicate().with_value(value);
            proof {
                assert(attributes_wf(entity@));
                assert(rows_sorted(entity@[ai as int].rows));
            }
            replace_existing(entity, updated);
            true
        },
    }
}

/// Replacing an attribute by one whose value is no emptier keeps the handshake's attributes in place.
proof fn lemma_replace_keeps_security(attributes: Seq<AttributeView>, a: AttributeView)
    requires
        attributes_wf(attributes),
        security_record_wf(attributes),
        attribute_of(attributes, a.index) matches Some(o)
            && ((a.index == 3 || a.index == 8 || a.index == 9) && o.value.len() > 0 ==> a.value.len() > 0),
        rows_sorted(a.rows),
    ensures
        security_record_wf(attributes_replace(attributes, a)),
        attributes_wf(attributes_replace(attributes, a)),
{
    lemma_replace(attributes, a);
    let r = attributes_replace(attributes, a);
    assert(attribute_of(r, 3) == if a.index == 3 { Some(a) } else { attribute_of(attributes, 3) });
    assert(attribute_of(r, 5) == if a.index == 5 { Some(a) } else { attribute_of(attributes, 5) });
    assert(attribute_of(r, 6) == if a.index == 6 { Some(a) } else { attribute_of(attributes, 6) });
    assert(attribute_of(r, 8) == if a.index == 8 { Some(a) } else { attribute_of(attributes, 8) });
    assert(attribute_of(r, 9) == if a.index == 9 { Some(a) } else { attribute_of(attributes, 9) });
}

/// Sets the first byte of a state attribute (3, 8 or 9), keeping the handshake's attributes in place.
pub fn set_state_byte(entity: &mut ManagedEntity, index: u8, byte: u8) -> (present: bool)
    requires
        attributes_wf(old(entity)@),
        security_record_wf(old(entity)@),
        index == 3 || index == 8 || index == 9,
    ensures
        present == spec_set_first_byte(old(entity)@, index, byte) is Some,
        final(entity)@ == match spec_set_first_byte(old(entity)@, index, byte) {
            Some(a) => a,
            None => old(entity)@,
        },
        same_layout(old(entity)@, final(entity)@),
        attributes_wf(final(entity)@),
        security_record_wf(final(entity)@),
{
    let ghost v = entity@;
    proof {
        lemma_attribute_of(v, index);
        if let Some(a) = attribute_of(v, index) {
            lemma_replace_keeps_security(v, AttributeView { value: a.value.update(0, byte), ..a });
        }
    }
    set_first_byte(entity, index, byte)
}

/// Sets the first byte of a status attribute to zero, keeping the handshake's attributes in place.
fn reset_status_byte(entity: &mut ManagedEntity, status: u8) -> (present: bool)
    requires
        attributes_wf(old(entity)@),
        security_record_wf(old(entity)@),
        status == 3 || status == 8,
    ensures
        reset_status(old(entity)@, status) == (SecurityWrite { attributes: final(entity)@, step1: false, step2: false, ok: present }),
        same_layout(old(entity)@, final(entity)@),
        attributes_wf(final(entity)@),
        security_record_wf(final(entity)@),
{
    set_state_byte(entity, status, 0)
}

/// Applies one enhanced-security write; returns whether it was accepted and
/// whether it starts handshake step 1 or step 2.
pub fn security_write(entity: &mut ManagedEntity, update: &SetUpdate) -> (out: (bool, bool, bool))
    requires
        attributes_wf(old(entity)@),
        security_record_wf(old(entity)@),
        update@.is_table ==> update@.value.len() >= 8,
        !update@.is_table && (update@.index == 3 || update@.index == 8) ==> update@.value.len() >= 1,
    ensures
        spec_security_write(old(entity)@, update@) == (SecurityWrite { attributes: final(entity)@, step1: out.1, step2: out.2, ok: out.0 }),
        same_layout(old(entity)@, final(entity)@),
        attributes_wf(final(entity)@),
        security_record_wf(final(entity)@),
{
    let index = update.index;
    let ghost v = entity@;
    if (index == 2 || index == 7) && update.is_table {
        let ai = match entity.find(index) {
            Some(ai) => ai,
            None => return (false, false, false),
        };
        let mut attribute = entity.attribute_at(ai).duplicate();
        assert(rows_sorted(v[ai as int].rows));
        if update.value[0] == 0 {
            attribute.clear_rows();
        } else {
            let key = vec![update.value[0]];
            assert(key@ =~= seq![update.value[0]]);
            attribute.put_row(key, copy_bytes(update.value.as_slice()));
        }
        proof {
            lemma_replace_keeps_security(v, attribute@);
        }
        replace_existing(entity, attribute);
        let status: u8 = if index == 2 { 3 } else { 8 };
        let ok = reset_status_byte(entity, status);
        assert(spec_security_write(v, update@) == (SecurityWrite { attributes: entity@, step1: false, step2: false, ok }));
        (ok, false, false)
    } else if index == 1 && !update.is_table {
        let ai = match entity.find(1) {
            Some(ai) => ai,
            None => return (false, false, false),
        };
        let attribute = entity.attribute_at(ai).duplicate().with_value(copy_bytes(update.value.as_slice()));
        proof {
            assert(rows_sorted(v[ai as int].rows));
            lemma_replace_keeps_security(v, attribute@);
        }
        replace_existing(entity, attribute);
        let ok = reset_status_byte(entity, 3);
        assert(spec_security_write(v, update@) == (SecurityWrite { attributes: entity@, step1: false, step2: false, ok }));
        (ok, false, false)
    } else if index == 11 && update.is_table {
        let ai = match entity.find(11) {
            Some(ai) => ai,
            None => return (false, false, false),
        };
        let first = update.value[0];
        let control = first & 3;
        assert(first & 3 <= 3) by (bit_vector);
        if control == 3 {
            return (false, false, false);
        }
        let mut attribute = entity.attribute_at(ai).duplicate();
        assert(rows_sorted(v[ai as int].rows));
        if control == 0 {
            let key = vec![update.value[1]];
            assert(key@ =~= seq![update.value[1]]);
            attribute.put_row(key, copy_bytes(update.value.as_slice()));
        } else if control == 1 {
            let key = vec![update.value[1]];
            assert(key@ =~= seq![update.value[1]]);
            attribute.delete_row(key.as_slice());
        } else {
            attribute.clear_rows();
        }
        proof {
            lemma_replace_keeps_security(v, attribute@);
        }
        replace_existing(entity, attribute);
        assert(spec_security_write(v, update@) == (SecurityWrite { attributes: entity@, step1: false, step2: false, ok: true }));
        (true, false, false)
    } else if (index == 3 || index == 8) && !update.is_table && update.value[0] <= 1 {
        let ai = match entity.find(index) {
            Some(ai) => ai,
            None => return (false, false, false),
        };
        let current = entity.attribute_at(ai).value()[0];
        let rising = current == 0 && update.value[0] == 1;
        proof {
            let a = v[ai as int];
            lemma_replace_keeps_security(v, AttributeView { value: a.value.update(0, update.value[0]), ..a });
        }
        set_first_byte(entity, index, update.value[0]);
        assert(spec_security_write(v, update@) == (SecurityWrite { attributes: entity@, step1: index == 3 && rising, step2: index == 8 && rising, ok: true }));
        (true, index == 3 && rising, index == 8 && rising)
    } else {
        (false, false, false)
    }
}

/// Applies enhanced-security writes in order until one is refused; returns
/// whether all were accepted and which handshake steps they start.
pub fn security_writes(entity: &mut ManagedEntity, updates: &Vec<SetUpdate>) -> (out: (bool, bool, bool))
    requires
        attributes_wf(old(entity)@),
        security_record_wf(old(entity)@),
        security_updates_fit(update_views(updates@)),
    ensures
        spec_security_writes(old(entity)@, update_views(updates@)) == (SecurityWrite { attributes: final(entity)@, step1: out.1, step2: out.2, ok: out.0 }),
        same_layout(old(entity)@, final(entity)@),
        attributes_wf(final(entity)@),
        security_record_wf(final(entity)@),
{
    let ghost start = entity@;
    let ghost all = update_views(updates@);
    let mut step1 = false;
    let mut step2 = false;
    let mut i: usize = 0;
    while i < updates.len()
        invariant
            i <= updates.len(),
            all == update_views(updates@),
            start == old(entity)@,
            same_layout(start, entity@),
            security_updates_fit(all),
            attributes_wf(entity@),
            security_record_wf(entity@),
            spec_security_writes(start, all.take(i as int)) == (SecurityWrite { attributes: entity@, step1, step2, ok: true }),
        decreases updates.len() - i,
    {
        assert(all[i as int] == updates@[i as int]@);
        let (ok, s1, s2) = security_write(entity, &updates[i]);
        proof {
            let t = all.take(i + 1);
            assert(t.drop_last() =~= all.take(i as int));
            assert(t.last() == all[i as int]);
            assert(spec_security_writes(start, t) == (SecurityWrite { attributes: entity@, step1: step1 || s1, step2: step2 || s2, ok }));
        }
        step1 = step1 || s1;
        step2 = step2 || s2;
        if !ok {
            proof {
                lemma_writes_stop(start, all, i as int + 1);
            }
            return (false, step1, step2);
        }
        i += 1;
    }
    assert(all.take(updates.len() as int) =~= all);
    (true, step1, step2)
}

/// After a refused write, later writes change nothing.
proof fn lemma_writes_stop(attributes: Seq<AttributeView>, updates: Seq<SetUpdateView>, n: int)
    requires
        0 <= n <= updates.len(),
        !spec_security_writes(attributes, updates.take(n)).ok,
    ensures
        spec_security_writes(attributes, updates) == spec_security_writes(attributes, updates.take(n)),
    decreases updates.len() - n,
{
    if n < updates.len() {
        let t = updates.take(n + 1);
        assert(t.drop_last() =~= updates.take(n));
        lemma_writes_stop(attributes, updates, n + 1);
    } else {
        assert(updates.take(n) =~= updates);
    }
}

pub open spec fn blocks_view(blocks: Seq<[u8; 16]>) -> Seq<Seq<u8>> {
    blocks.map_values(|b: [u8; 16]| b@)
}

/// The sixteen bytes of `bytes` from `start`.
fn block16(bytes: &[u8], start: usize) -> (block: [u8; 16])
    requires
        start + 16 <= bytes@.len(),
    ensures
        block@ == bytes@.subrange(start as int, start + 16),
{
    let mut block = [0u8; 16];
    let mut k: usize = 0;
    let n = bytes.len();
    while k < 16
        invariant
            k <= 16,
            n == bytes@.len(),
            start + 16 <= bytes@.len(),
            block@.len() == 16,
            forall|j: int| 0 <= j < k ==> block@[j] == bytes@[start + j],
        decreases 16 - k,
    {
        block.set(k, bytes[start + k]);
        k += 1;
    }
    assert(block@ =~= bytes@.subrange(start as int, start + 16));
    block
}

/// Once a row is too short, the challenge table cannot be read.
proof fn lemma_challenges_stop(rows: Seq<RowView>, indexed: bool, n: int)
    requires
        0 <= n <= rows.len(),
        spec_challenges_of_rows(rows.take(n), indexed) is None,
    ensures
        spec_challenges_of_rows(rows, indexed) is None,
    decreases rows.len() - n,
{
    if n < rows.len() {
        let t = rows.take(n + 1);
        assert(t.drop_last() =~= rows.take(n));
        lemma_challenges_stop(rows, indexed, n + 1);
    } else {
        assert(rows.take(n) =~= rows);
    }
}

/// The 16-byte challenges of table attribute `index`, in row order.
pub fn challenges(entity: &ManagedEntity, index: u8, indexed: bool) -> (found: Option<Vec<[u8; 16]>>)
    ensures
        match found {
            Some(c) => spec_challenges(entity@, index, indexed) == Some(blocks_view(c@)),
            None => spec_challenges(entity@, index, indexed) is None,
        },
{
    let attribute = match entity.attribute(index) {
        Some(attribute) => attribute,
        None => return None,
    };
    let rows = attribute.rows();
    let ghost rv = rows_view(rows@);
    let mut found: Vec<[u8; 16]> = Vec::new();
    let mut i: usize = 0;
    assert(rv.take(0) =~= Seq::<RowView>::empty());
    assert(blocks_view(found@) =~= Seq::<Seq<u8>>::empty());
    while i < rows.len()
        invariant
            i <= rows.len(),
            rv == rows_view(rows@),
            rv == attribute@.rows,
            attribute_of(entity@, index) == Some(attribute@),
            spec_challenges_of_rows(rv.take(i as int), indexed) == Some(blocks_view(found@)),
        decreases rows.len() - i,
    {
        let row = &rows[i].value;
        proof {
            let t = rv.take(i + 1);
            assert(t.drop_last() =~= rv.take(i as int));
            assert(t.last() == rv[i as int]);
            assert(rv[i as int].1 == row@);
        }
        let start: usize = if indexed { 1 } else { 0 };
        if row.len() < start + 16 {
            proof {
                assert(spec_challenge(row@, indexed) is None);
                assert(spec_challenges_of_rows(rv.take(i + 1), indexed) is None);
                lemma_challenges_stop(rv, indexed, i + 1);
            }
            return None;
        }
        let block = block16(row.as_slice(), start);
        let ghost before = found@;
        found.push(block);
        assert(blocks_view(found@) =~= blocks_view(before).push(block@));
        i += 1;
    }
    assert(rv.take(rows.len() as int) =~= rv);
    if found.len() == 0 {
        return None;
    }
    Some(found)
}

/// Fills the ONU challenge table (attribute 5) and the ONU authentication
/// result table (attribute 6); `false` where either attribute is absent.
pub fn install_challenges(entity: &mut ManagedEntity, onu_challenges: &Vec<[u8; 16]>, result: &[u8; 16]) -> (ok: bool)
    requires
        attributes_wf(old(entity)@),
        security_record_wf(old(entity)@),
    ensures
        spec_install_challenges(old(entity)@, blocks_view(onu_challenges@), result@) == (final(entity)@, ok),
        same_layout(old(entity)@, final(entity)@),
        attributes_wf(final(entity)@),
        security_record_wf(final(entity)@),
{
    let ghost v = entity@;
    let ghost c = blocks_view(onu_challenges@);
    let ai = match entity.find(5) {
        Some(ai) => ai,
        None => return false,
    };
    let ghost a5 = v[ai as int];
    let mut table = entity.attribute_at(ai).duplicate();
    table.clear_rows();
    let mut i: usize = 0;
    assert(c.take(0) =~= Seq::<Seq<u8>>::empty());
    while i < onu_challenges.len()
        invariant
            i <= onu_challenges.len(),
            c == blocks_view(onu_challenges@),
            table@ == (AttributeView { rows: challenge_rows(c.take(i as int)), ..a5 }),
            rows_sorted(table@.rows),
        decreases onu_challenges.len() - i,
    {
        let key = vec![((i + 1) % 256) as u8];
        assert(key@ =~= seq![((i + 1) % 256) as u8]);
        let row = copy_bytes(onu_challenges[i].as_slice());
        proof {
            let t = c.take(i + 1);
            assert(t.drop_last() =~= c.take(i as int));
            assert(t.last() == c[i as int]);
            assert(row@ == c[i as int]);
        }
        table.put_row(key, row);
        i += 1;
    }
    assert(c.take(onu_challenges.len() as int) =~= c);
    proof {
        lemma_replace_keeps_security(v, table@);
    }
    replace_existing(entity, table);
    let ghost w = entity@;
    let bi = match entity.find(6) {
        Some(bi) => bi,
        None => return false,
    };
    let mut results = entity.attribute_at(bi).duplicate();
    results.clear_rows();
    let key = vec![1u8];
    assert(key@ =~= seq![1u8]);
    results.put_row(key, copy_bytes(result.as_slice()));
    assert(results@.rows =~= seq![(seq![1u8], result@)]);
    proof {
        lemma_replace_keeps_security(w, results@);
    }
    replace_existing(entity, results);
    true
}

/// Replaces the value of attribute `index`; `false` where it is absent.
pub fn set_attribute_value(entity: &mut ManagedEntity, index: u8, value: Vec<u8>) -> (present: bool)
    requires
        attributes_wf(old(entity)@),
        security_record_wf(old(entity)@),
        index != 3 && index != 8 && index != 9,
    ensures
        present == attribute_of(old(entity)@, index) is Some,
        final(entity)@ == match attribute_of(old(entity)@, index) {
            Some(a) => attributes_replace(old(entity)@, AttributeView { value: value@, ..a }),
            None => old(entity)@,
        },
        attributes_wf(final(entity)@),
        security_record_wf(final(entity)@),
        same_layout(old(entity)@, final(entity)@),
{
    let ghost v = entity@;
    match entity.find(index) {
        None => false,
        Some(ai) => {
            let updated = entity.attribute_at(ai).duplicate().with_value(value);
            proof {
                assert(rows_sorted(v[ai as int].rows));
                lemma_replace_keeps_security(v, updated@);
            }
            replace_existing(entity, updated);
            true
        },
    }
}

/// Whether the OLT authentication result the OLT wrote is `expected`.
pub fn received_result_is(entity: &ManagedEntity, expected: &[u8; 16]) -> (same: bool)
    ensures
        same == (spec_received_result(entity@) == Some(expected@)),
{
    let attribute = match entity.attribute(7) {
        Some(attribute) => attribute,
        None => return false,
    };
    let rows = attribute.rows();
    if rows.len() == 0 {
        return false;
    }
    let row = &rows[0].value;
    assert(attribute@.rows[0].1 == row@);
    if row.len() < 17 {
        return false;
    }
    let mut k: usize = 0;
    while k < 16
        invariant
            k <= 16,
            row@.len() >= 17,
            attribute_of(entity@, 7) == Some(attribute@),
            attribute@.rows.len() > 0,
            attribute@.rows[0].1 == row@,
            forall|j: int| 0 <= j < k ==> row@[j + 1] == expected@[j],
        decreases 16 - k,
    {
        if row[k + 1] != expected[k] {
            assert(row@.subrange(1, 17)[k as int] != expected@[k as int]);
            return false;
        }
        k += 1;
    }
    assert(row@.subrange(1, 17) =~= expected@);
    true
}

} // verus!
