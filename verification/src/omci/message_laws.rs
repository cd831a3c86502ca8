//! Laws on what OLT requests read and write: table rows, the values a Get
//! returns, the records of a MIB Upload, and the P-bits of a mapper's paths.
use vstd::prelude::*;

use super::entity::{attribute_of, lemma_row_order, row_key, row_lt, rows_lookup, rows_sorted, AttributeView, RowView};
use super::laws::selected;
use super::mib::{
    entities_wf, lemma_pair_order, pair_lt, record_key, record_wf, spec_mib_upload, spec_upload_records, entity_of, RecordView,
    spec_upload_entity, UploadRecordView, spec_apply_row, spec_get, spec_get_scan, GetScan, MibView, TableSnapshotView};
use super::protocol::{spec_attribute_bit, Request, ResponseBodyView, UPLOAD_RECORD_CAPACITY};
use super::provisioning::{attr_u16, spec_mapper_fold, spec_mapper_path, spec_unicast, DataPathCandidate, DATA_PATH_VLAN_ANY};
use super::schema::{CLASS_CTC_LOID_AUTH, CLASS_GEM_INTERWORKING_TP, CLASS_IEEE_8021P_MAPPER, CLASS_ONU_DATA};
use super::sorted::lemma_lookup_sorted;
use super::sorted::{lemma_insert_sorted, lemma_remove_key};

verus! {

/// A table write is keyed by its first eight bytes: where every byte after
/// the key is 0xff no row with that key is left, otherwise the write is the
/// row stored under its key; rows under other keys stay as they were.
pub proof fn lemma_table_write_puts_or_deletes(rows: Seq<RowView>, row: Seq<u8>)
    requires
        rows_sorted(rows),
        row.len() >= 8,
    ensures
        rows_sorted(spec_apply_row(rows, row)),
        (forall|k: int| 8 <= k < row.len() ==> row[k] == 0xff) ==> rows_lookup(spec_apply_row(rows, row), row.subrange(0, 8)) is None,
        !(forall|k: int| 8 <= k < row.len() ==> row[k] == 0xff) ==> rows_lookup(spec_apply_row(rows, row), row.subrange(0, 8))
            == Some((row.subrange(0, 8), row)),
        forall|key: Seq<u8>| key != row.subrange(0, 8) ==> #[trigger] rows_lookup(spec_apply_row(rows, row), key) == rows_lookup(rows, key),
{
    lemma_row_order();
    let key = row.subrange(0, 8);
    assert(row.take(8) == key);
    lemma_remove_key(rows, key, row_key(), row_lt());
    let x: RowView = (key, row);
    lemma_insert_sorted(rows, x, row_key(), row_lt());
}

/// The bit of attribute `index + 1` in an attribute mask.
pub open spec fn index_bit(index: u16) -> u16 {
    0x8000u16 >> index
}

proof fn lemma_index_bits(m: u16, x: u16, y: u16)
    requires
        x < 16,
        y < 16,
    ensures
        ((m | index_bit(x)) & index_bit(y) != 0) == ((m & index_bit(y)) != 0 || x == y),
        0u16 & index_bit(y) == 0,
        index_bit(y) != 0,
{
    assert(((m | (0x8000u16 >> x)) & (0x8000u16 >> y) != 0) == ((m & (0x8000u16 >> y)) != 0 || x == y)) by (bit_vector)
        requires x < 16, y < 16;
    assert(0u16 & (0x8000u16 >> y) == 0) by (bit_vector);
    assert((0x8000u16 >> y) != 0) by (bit_vector)
        requires y < 16;
}

/// Adding the bit of attribute `a` to a mask selects `a` besides what the
/// mask selected.
pub proof fn lemma_select_more(m: u16, a: int, t: int)
    requires
        1 <= a <= 16,
    ensures
        selected(m | spec_attribute_bit(a as u8).unwrap(), t) == (selected(m, t) || (1 <= t <= 16 && t == a)),
        !selected(0, t),
{
    if 1 <= t <= 16 {
        assert(spec_attribute_bit(a as u8).unwrap() == index_bit((a - 1) as u16));
        assert(spec_attribute_bit(t as u8).unwrap() == index_bit((t - 1) as u16));
        lemma_index_bits(m, (a - 1) as u16, (t - 1) as u16);
    }
}

/// The values of the attributes `mask` selects from attribute `index` up,
/// concatenated in ascending attribute order.
pub open spec fn selected_values(attributes: Seq<AttributeView>, mask: u16, index: int) -> Seq<u8>
    decreases 17 - index,
{
    if !(1 <= index <= 16) {
        Seq::empty()
    } else {
        let rest = selected_values(attributes, mask, index + 1);
        match attribute_of(attributes, index as u8) {
            Some(a) => if selected(mask, index) { a.value + rest } else { rest },
            None => rest,
        }
    }
}

/// The values a finished Get scan collected.
pub open spec fn get_scan_values(scan: GetScan) -> (u16, Seq<u8>) {
    match scan {
        GetScan::Done { mask, values, .. } => (mask, values),
        GetScan::Fail { .. } => (0, Seq::empty()),
    }
}

proof fn lemma_get_scan_values(
    attributes: Seq<AttributeView>,
    request: Request,
    index: int,
    mask: u16,
    values: Seq<u8>,
    table: Option<TableSnapshotView>,
)
    requires
        1 <= index <= 17,
        spec_get_scan(attributes, request, index, mask, values, table) is Done,
        forall|t: int| index <= t <= 16 && #[trigger] selected(request.attribute_mask, t) && attribute_of(attributes, t as u8) is Some
            ==> attribute_of(attributes, t as u8).unwrap().table_row_len is None,
    ensures
        ({
            let (mask1, values1) = get_scan_values(spec_get_scan(attributes, request, index, mask, values, table));
            &&& values1 == values + selected_values(attributes, request.attribute_mask, index)
            &&& forall|t: int| #[trigger] selected(mask1, t) == (selected(mask, t) || (index <= t && selected(request.attribute_mask, t)))
        }),
    decreases 17 - index,
{
    let req = request.attribute_mask;
    if index > 16 {
        assert(values + Seq::<u8>::empty() =~= values);
    } else {
        let bit = spec_attribute_bit(index as u8).unwrap();
        assert(selected(req, index) == (req & bit != 0));
        if req & bit == 0 {
            lemma_get_scan_values(attributes, request, index + 1, mask, values, table);
            assert forall|t: int| #[trigger] selected(req, t) && index <= t implies index + 1 <= t by {}
        } else {
            let a = attribute_of(attributes, index as u8).unwrap();
            lemma_get_scan_values(attributes, request, index + 1, mask | bit, values + a.value, table);
            assert((values + a.value) + selected_values(attributes, req, index + 1)
                =~= values + (a.value + selected_values(attributes, req, index + 1)));
            assert forall|t: int| #[trigger] selected(mask | bit, t) == (selected(mask, t) || (1 <= t <= 16 && t == index)) by {
                lemma_select_more(mask, index, t);
            }
        }
    }
}

/// A successful Get of scalar attributes returns exactly the attributes it
/// asked for, their values concatenated in ascending attribute order, the
/// lowest selected attribute first.
pub proof fn lemma_get_returns_values_in_attribute_order(m: MibView, request: Request)
    requires
        entity_of(m.entities, request.class_id, request.entity_id) is Some,
        spec_get(m, request).1 is GetSuccess,
        forall|t: int| #[trigger] selected(request.attribute_mask, t)
            && attribute_of(entity_of(m.entities, request.class_id, request.entity_id).unwrap().attributes, t as u8) is Some
            ==> attribute_of(entity_of(m.entities, request.class_id, request.entity_id).unwrap().attributes, t as u8).unwrap().table_row_len is None,
    ensures
        ({
            let attributes = entity_of(m.entities, request.class_id, request.entity_id).unwrap().attributes;
            match spec_get(m, request).1 {
                ResponseBodyView::GetSuccess { attribute_mask, values } => {
                    &&& values == selected_values(attributes, request.attribute_mask, 1)
                    &&& forall|t: int| #[trigger] selected(attribute_mask, t) == selected(request.attribute_mask, t)
                },
                _ => false,
            }
        }),
{
    let attributes = entity_of(m.entities, request.class_id, request.entity_id).unwrap().attributes;
    let scan = spec_get_scan(attributes, request, 1, 0, Seq::empty(), None);
    assert(scan is Done);
    lemma_get_scan_values(attributes, request, 1, 0, Seq::empty(), None);
    assert(spec_get(m, request).1 == (ResponseBodyView::GetSuccess {
        attribute_mask: get_scan_values(scan).0,
        values: get_scan_values(scan).1,
    }));
    assert(Seq::<u8>::empty() + selected_values(attributes, request.attribute_mask, 1) =~= selected_values(attributes, request.attribute_mask, 1));
    assert forall|t: int| #[trigger] selected(0, t) == false by {
        lemma_select_more(0, 1, t);
    }
}

/// The unicast path that attribute `p + 2` of 802.1p mapper `mapper` leads
/// to (the pointer names a GEM interworking point, which names the CTP, or the
/// CTP itself; 0xffff names nothing): where P-bit `p` of the mapper goes.
pub open spec fn mapper_target(entities: Seq<RecordView>, mapper: u16, p: u8) -> Option<DataPathCandidate> {
    match attr_u16(entities, CLASS_IEEE_8021P_MAPPER, mapper, (p + 2) as u8) {
        Some(pointer) => if pointer == 0xffff {
            None
        } else {
            let ctp = match attr_u16(entities, CLASS_GEM_INTERWORKING_TP, pointer, 1) {
                Some(c) => c,
                None => pointer,
            };
            spec_unicast(entities, ctp)
        },
        None => None,
    }
}

/// P-bit `p` of a mapper reaches GEM port `gem_id`.
pub open spec fn pbit_reaches(entities: Seq<RecordView>, mapper: u16, p: u8, gem_id: u16) -> bool {
    mapper_target(entities, mapper, p) matches Some(c) && c.gem_id == gem_id
}

/// The bit of P-bit `p` in a P-bit mask.
pub open spec fn pbit_bit(p: u8) -> u8 {
    (1u8 << p) as u8
}

/// The path exists and carries P-bit `p`.
pub open spec fn path_has_pbit(path: Option<DataPathCandidate>, p: u8) -> bool {
    path matches Some(q) && q.pbit_mask & pbit_bit(p) != 0
}

proof fn lemma_pbit_bits(m: u8, x: u8, y: u8)
    requires
        x < 8,
        y < 8,
    ensures
        ((m | pbit_bit(x)) & pbit_bit(y) != 0) == ((m & pbit_bit(y)) != 0 || x == y),
        (pbit_bit(x) & pbit_bit(y) != 0) == (x == y),
        ((0u8 | pbit_bit(x)) & pbit_bit(y) != 0) == (x == y),
{
    assert((((0u8 | ((1u8 << x) as u8)) & ((1u8 << y) as u8)) != 0) == (x == y)) by (bit_vector)
        requires x < 8, y < 8;
    assert(((m | ((1u8 << x) as u8)) & ((1u8 << y) as u8) != 0) == ((m & ((1u8 << y) as u8)) != 0 || x == y)) by (bit_vector)
        requires x < 8, y < 8;
    assert((((1u8 << x) as u8) & ((1u8 << y) as u8) != 0) == (x == y)) by (bit_vector)
        requires x < 8, y < 8;
}

proof fn lemma_mapper_fold_bit(entities: Seq<RecordView>, mapper: u16, gem_id: u16, n: nat, p: u8)
    requires
        n <= 8,
        p < 8,
    ensures
        path_has_pbit(spec_mapper_fold(entities, mapper, gem_id, n), p) == (p < n && pbit_reaches(entities, mapper, p, gem_id)),
    decreases n,
{
    if n > 0 {
        let m = (n - 1) as nat;
        let x = (n - 1) as u8;
        lemma_mapper_fold_bit(entities, mapper, gem_id, m, p);
        let previous = spec_mapper_fold(entities, mapper, gem_id, m);
        assert((1u8 << ((n - 1) as u8)) as u8 == pbit_bit(x));
        assert(super::provisioning::spec_pbit_path(entities, mapper, x) == mapper_target(entities, mapper, x));
        let here = pbit_reaches(entities, mapper, x, gem_id);
        match previous {
            Some(q0) => {
                lemma_pbit_bits(q0.pbit_mask, x, p);
                if here {
                    assert(spec_mapper_fold(entities, mapper, gem_id, n) == Some(
                        DataPathCandidate { pbit_mask: q0.pbit_mask | pbit_bit(x), ..q0 },
                    ));
                } else {
                    assert(spec_mapper_fold(entities, mapper, gem_id, n) == previous);
                }
            },
            None => {
                lemma_pbit_bits(0, x, p);
                if here {
                    let c = mapper_target(entities, mapper, x).unwrap();
                    assert(c.pbit_mask == 0);
                    assert(spec_mapper_fold(entities, mapper, gem_id, n) == Some(
                        DataPathCandidate { pbit_mask: 0u8 | pbit_bit(x), ..c },
                    ));
                } else {
                    assert(spec_mapper_fold(entities, mapper, gem_id, n) == previous);
                }
            },
        }
    }
}

proof fn lemma_mapper_fold_origin(entities: Seq<RecordView>, mapper: u16, gem_id: u16, n: nat)
    requires
        n <= 8,
    ensures
        spec_mapper_fold(entities, mapper, gem_id, n) matches Some(q) ==> exists|p: u8| p < n && #[trigger] mapper_target(entities, mapper, p)
            == Some(DataPathCandidate { pbit_mask: 0, ..q }) && q.gem_id == gem_id,
    decreases n,
{
    if n > 0 {
        let m = (n - 1) as nat;
        let x = (n - 1) as u8;
        lemma_mapper_fold_origin(entities, mapper, gem_id, m);
        let previous = spec_mapper_fold(entities, mapper, gem_id, m);
        assert(super::provisioning::spec_pbit_path(entities, mapper, x) == mapper_target(entities, mapper, x));
        if let Some(c) = mapper_target(entities, mapper, x) {
            assert(c.pbit_mask == 0);
        }
        if let Some(q) = spec_mapper_fold(entities, mapper, gem_id, n) {
            if let Some(q0) = previous {
                let p0 = choose|p: u8| p < m && #[trigger] mapper_target(entities, mapper, p)
                    == Some(DataPathCandidate { pbit_mask: 0, ..q0 }) && q0.gem_id == gem_id;
                assert(DataPathCandidate { pbit_mask: 0, ..q } == DataPathCandidate { pbit_mask: 0, ..q0 });
                assert(p0 < n);
            } else {
                assert(mapper_target(entities, mapper, x) == Some(DataPathCandidate { pbit_mask: 0, ..q }));
            }
        }
    }
}

/// The path of an 802.1p mapper towards a GEM port carries exactly the
/// P-bits whose pointer (attribute 2 for P-bit 0 up to attribute 9 for P-bit
/// 7) leads to that GEM port, and is the unicast path of one of them; there is
/// such a path exactly when some P-bit leads to the GEM port.
pub proof fn lemma_mapper_path_carries_its_pbits(entities: Seq<RecordView>, mapper: u16, gem_id: u16)
    requires
        entity_of(entities, CLASS_IEEE_8021P_MAPPER, mapper) is Some,
    ensures
        forall|p: u8| p < 8 ==> (path_has_pbit(spec_mapper_path(entities, mapper, gem_id), p)
            == #[trigger] pbit_reaches(entities, mapper, p, gem_id)),
        (spec_mapper_path(entities, mapper, gem_id) is Some) == (exists|p: u8| p < 8 && #[trigger] pbit_reaches(entities, mapper, p, gem_id)),
        spec_mapper_path(entities, mapper, gem_id) matches Some(q) ==> {
            &&& q.gem_id == gem_id
            &&& !q.multicast
            &&& q.vlan_id == DATA_PATH_VLAN_ANY
            &&& exists|p: u8| p < 8 && #[trigger] mapper_target(entities, mapper, p) == Some(DataPathCandidate { pbit_mask: 0, ..q })
        },
{
    lemma_mapper_fold_origin(entities, mapper, gem_id, 8);
    assert forall|p: u8| p < 8 implies (path_has_pbit(spec_mapper_path(entities, mapper, gem_id), p)
        == #[trigger] pbit_reaches(entities, mapper, p, gem_id)) by {
        lemma_mapper_fold_bit(entities, mapper, gem_id, 8, p);
    }
    if let Some(q) = spec_mapper_path(entities, mapper, gem_id) {
        let p = choose|p: u8| p < 8 && #[trigger] mapper_target(entities, mapper, p) == Some(DataPathCandidate { pbit_mask: 0, ..q })
            && q.gem_id == gem_id;
        let c = mapper_target(entities, mapper, p).unwrap();
        assert(!c.multicast && c.vlan_id == DATA_PATH_VLAN_ANY);
        lemma_pbit_bits(q.pbit_mask, p, p);
        assert(pbit_reaches(entities, mapper, p, gem_id));
        assert(q.pbit_mask & pbit_bit(p) != 0);
    }
    if exists|p: u8| p < 8 && #[trigger] pbit_reaches(entities, mapper, p, gem_id) {
        let p = choose|p: u8| p < 8 && #[trigger] pbit_reaches(entities, mapper, p, gem_id);
        assert(spec_mapper_path(entities, mapper, gem_id) is Some);
    }
}

/// A mapper whose only pointer is attribute 2 (P-bit 0) gives its GEM port
/// a path that carries P-bit 0 alone.
pub proof fn lemma_mapper_pbit_zero_alone(entities: Seq<RecordView>, mapper: u16, gem_id: u16)
    requires
        entity_of(entities, CLASS_IEEE_8021P_MAPPER, mapper) is Some,
        pbit_reaches(entities, mapper, 0, gem_id),
        forall|p: u8| 1 <= p < 8 ==> #[trigger] mapper_target(entities, mapper, p) is None,
    ensures
        spec_mapper_path(entities, mapper, gem_id) matches Some(q) && q.pbit_mask == 0x01,
{
    lemma_mapper_path_carries_its_pbits(entities, mapper, gem_id);
    let q = spec_mapper_path(entities, mapper, gem_id).unwrap();
    assert(pbit_reaches(entities, mapper, 0, gem_id));
    assert(q.pbit_mask & pbit_bit(0) != 0);
    assert forall|p: u8| 1 <= p < 8 implies q.pbit_mask & pbit_bit(p) == 0 by {
        assert(!pbit_reaches(entities, mapper, p, gem_id));
    }
    let m = q.pbit_mask;
    assert(m & pbit_bit(1) == 0 && m & pbit_bit(2) == 0 && m & pbit_bit(3) == 0 && m & pbit_bit(4) == 0);
    assert(m & pbit_bit(5) == 0 && m & pbit_bit(6) == 0 && m & pbit_bit(7) == 0);
    assert(m == 0x01) by (bit_vector)
        requires
            m & ((1u8 << 0u8) as u8) != 0,
            m & ((1u8 << 1u8) as u8) == 0,
            m & ((1u8 << 2u8) as u8) == 0,
            m & ((1u8 << 3u8) as u8) == 0,
            m & ((1u8 << 4u8) as u8) == 0,
            m & ((1u8 << 5u8) as u8) == 0,
            m & ((1u8 << 6u8) as u8) == 0,
            m & ((1u8 << 7u8) as u8) == 0;
}

/// Whether `mask` selects attribute `a`.
pub open spec fn mask_selects(mask: u16, a: AttributeView) -> bool {
    selected(mask, a.index as int)
}

/// An attribute MIB Upload reports: a scalar marked for upload.
pub open spec fn uploadable(a: AttributeView) -> bool {
    a.upload && a.table_row_len is None
}

/// Attribute indices in 1..=16, strictly increasing along the list.
pub open spec fn indices_increasing(attributes: Seq<AttributeView>) -> bool {
    &&& forall|j: int| 0 <= j < attributes.len() ==> 1 <= #[trigger] attributes[j].index <= 16
    &&& forall|j1: int, j2: int| 0 <= j1 < j2 < attributes.len() ==> (#[trigger] attributes[j1]).index < (#[trigger] attributes[j2]).index
}

/// The values of the attributes `mask` selects, concatenated in list order.
pub open spec fn masked_values(attributes: Seq<AttributeView>, mask: u16) -> Seq<u8>
    decreases attributes.len(),
{
    if attributes.len() == 0 {
        Seq::empty()
    } else {
        let rest = masked_values(attributes.drop_last(), mask);
        if mask_selects(mask, attributes.last()) { rest + attributes.last().value } else { rest }
    }
}

proof fn lemma_masked_step(s: Seq<AttributeView>, m: u16, i: int)
    requires
        0 <= i < s.len(),
    ensures
        masked_values(s.take(i + 1), m) == masked_values(s.take(i), m) + (if mask_selects(m, s[i]) { s[i].value } else { Seq::empty() }),
{
    assert(s.take(i + 1).drop_last() =~= s.take(i));
    assert(s.take(i + 1).last() == s[i]);
    assert(masked_values(s.take(i), m) + Seq::<u8>::empty() =~= masked_values(s.take(i), m));
}

proof fn lemma_masked_same(s: Seq<AttributeView>, m1: u16, m2: u16, n: int)
    requires
        0 <= n <= s.len(),
        forall|j: int| 0 <= j < n ==> mask_selects(m1, #[trigger] s[j]) == mask_selects(m2, s[j]),
    ensures
        masked_values(s.take(n), m1) == masked_values(s.take(n), m2),
    decreases n,
{
    if n == 0 {
        assert(s.take(0) =~= Seq::<AttributeView>::empty());
    } else {
        lemma_masked_same(s, m1, m2, n - 1);
        lemma_masked_step(s, m1, n - 1);
        lemma_masked_step(s, m2, n - 1);
    }
}

proof fn lemma_masked_tail(s: Seq<AttributeView>, m: u16, i: int, n: int)
    requires
        0 <= i <= n <= s.len(),
        forall|j: int| i <= j < n ==> !mask_selects(m, #[trigger] s[j]),
    ensures
        masked_values(s.take(n), m) == masked_values(s.take(i), m),
    decreases n - i,
{
    if n > i {
        lemma_masked_tail(s, m, i, n - 1);
        lemma_masked_step(s, m, n - 1);
        assert(masked_values(s.take(n - 1), m) + Seq::<u8>::empty() =~= masked_values(s.take(n - 1), m));
    }
}

/// Upload record `r` of instance `(class_id, entity_id)` carries the values
/// of exactly the attributes its mask selects, uploadable ones before `i`.
pub open spec fn record_carries(attributes: Seq<AttributeView>, class_id: u16, entity_id: u16, r: UploadRecordView, i: int) -> bool {
    &&& r.class_id == class_id
    &&& r.entity_id == entity_id
    &&& r.values == masked_values(attributes, r.attribute_mask)
    &&& forall|j: int| 0 <= j < attributes.len() && #[trigger] mask_selects(r.attribute_mask, attributes[j]) ==> uploadable(attributes[j]) && j < i
    &&& forall|t: int| #[trigger] selected(r.attribute_mask, t) ==> exists|j: int| 0 <= j < attributes.len() && (#[trigger] attributes[j]).index == t
}

/// The records from `r0` on select no attribute twice.
pub open spec fn records_disjoint(attributes: Seq<AttributeView>, records: Seq<UploadRecordView>, r0: int) -> bool {
    forall|k1: int, k2: int, j: int| r0 <= k1 < k2 < records.len() && 0 <= j < attributes.len()
        ==> !(#[trigger] mask_selects(records[k1].attribute_mask, attributes[j]) && #[trigger] mask_selects(records[k2].attribute_mask, attributes[j]))
}

/// Some record from `r0` on selects attribute `j`.
pub open spec fn reported(attributes: Seq<AttributeView>, records: Seq<UploadRecordView>, r0: int, j: int) -> bool {
    exists|k: int| r0 <= k < records.len() && #[trigger] mask_selects(records[k].attribute_mask, attributes[j])
}

/// Midway through the upload records of an instance: the record being
/// filled (`mask`, `values`) covers attributes before `i`, and the records
/// finished since `r0` carry their values and select nothing twice.
pub open spec fn upload_core(
    attributes: Seq<AttributeView>,
    class_id: u16,
    entity_id: u16,
    i: int,
    mask: u16,
    values: Seq<u8>,
    records: Seq<UploadRecordView>,
    r0: int,
) -> bool {
    &&& 0 <= i <= attributes.len()
    &&& 0 <= r0 <= records.len()
    &&& values == masked_values(attributes.take(i), mask)
    &&& forall|j: int| 0 <= j < attributes.len() && #[trigger] mask_selects(mask, attributes[j]) ==> uploadable(attributes[j]) && j < i
    &&& forall|t: int| #[trigger] selected(mask, t) ==> exists|j: int| 0 <= j < attributes.len() && (#[trigger] attributes[j]).index == t
    &&& forall|k: int| r0 <= k < records.len() ==> record_carries(attributes, class_id, entity_id, #[trigger] records[k], i)
    &&& records_disjoint(attributes, records, r0)
    &&& forall|k: int, j: int| r0 <= k < records.len() && 0 <= j < attributes.len()
        ==> !(#[trigger] mask_selects(records[k].attribute_mask, attributes[j]) && #[trigger] mask_selects(mask, attributes[j]))
    &&& forall|j: int| 0 <= j < i && uploadable(#[trigger] attributes[j]) && attributes[j].value.len() <= UPLOAD_RECORD_CAPACITY
        ==> mask_selects(mask, attributes[j]) || reported(attributes, records, r0, j)
}

/// Record `r` selects only attributes before `j`, and attribute `j`, which
/// is uploaded, would not have fitted beside its values.
pub open spec fn closed_before(attributes: Seq<AttributeView>, r: UploadRecordView, j: int) -> bool {
    &&& 0 <= j < attributes.len()
    &&& uploadable(attributes[j])
    &&& r.values.len() + attributes[j].value.len() > UPLOAD_RECORD_CAPACITY
    &&& forall|j2: int| 0 <= j2 < attributes.len() && #[trigger] mask_selects(r.attribute_mask, attributes[j2]) ==> j2 < j
}

/// `mask` selects only attributes from `j` on.
pub open spec fn starts_from(attributes: Seq<AttributeView>, mask: u16, j: int) -> bool {
    forall|j2: int| 0 <= j2 < attributes.len() && #[trigger] mask_selects(mask, attributes[j2]) ==> j2 >= j
}

/// Records are filled as far as they go: each record from `r0` on that
/// another follows was closed at an attribute that would not have fitted
/// beside its values, and the next record starts there.
pub open spec fn records_packed(attributes: Seq<AttributeView>, records: Seq<UploadRecordView>, r0: int) -> bool {
    forall|k: int| r0 <= k && k + 1 < records.len() ==> #[trigger] closed_for_next(attributes, records, k)
}

/// Record `k` was closed at an attribute where record `k + 1` starts.
pub open spec fn closed_for_next(attributes: Seq<AttributeView>, records: Seq<UploadRecordView>, k: int) -> bool {
    exists|j: int| #[trigger] closed_before(attributes, records[k], j) && starts_from(attributes, records[k + 1].attribute_mask, j)
}

/// The upload state with the records kept packed, the last one closed
/// where the record being filled starts.
pub open spec fn upload_state(
    attributes: Seq<AttributeView>,
    class_id: u16,
    entity_id: u16,
    i: int,
    mask: u16,
    values: Seq<u8>,
    records: Seq<UploadRecordView>,
    r0: int,
) -> bool {
    &&& upload_core(attributes, class_id, entity_id, i, mask, values, records, r0)
    &&& records_packed(attributes, records, r0)
    &&& records.len() > r0 ==> exists|j: int| j <= i && #[trigger] closed_before(attributes, records[records.len() - 1], j)
        && starts_from(attributes, mask, j)
}

/// The upload records of an instance, from `r0` on: each carries the values
/// of exactly the attributes its mask selects, no attribute is selected
/// twice, and every uploadable attribute that fits a record is reported.
pub open spec fn upload_done(attributes: Seq<AttributeView>, class_id: u16, entity_id: u16, out: Seq<UploadRecordView>, r0: int) -> bool {
    &&& 0 <= r0 <= out.len()
    &&& records_packed(attributes, out, r0)
    &&& forall|k: int| r0 <= k < out.len() ==> record_carries(attributes, class_id, entity_id, #[trigger] out[k], attributes.len() as int)
    &&& records_disjoint(attributes, out, r0)
    &&& forall|j: int| 0 <= j < attributes.len() && uploadable(#[trigger] attributes[j]) && attributes[j].value.len() <= UPLOAD_RECORD_CAPACITY
        ==> reported(attributes, out, r0, j)
}

proof fn lemma_carries_later(attributes: Seq<AttributeView>, class_id: u16, entity_id: u16, records: Seq<UploadRecordView>, r0: int, i: int)
    requires
        forall|k: int| r0 <= k < records.len() ==> record_carries(attributes, class_id, entity_id, #[trigger] records[k], i),
    ensures
        forall|k: int| r0 <= k < records.len() ==> record_carries(attributes, class_id, entity_id, #[trigger] records[k], i + 1),
{
    assert forall|k: int| r0 <= k < records.len() implies record_carries(attributes, class_id, entity_id, #[trigger] records[k], i + 1) by {
        assert(record_carries(attributes, class_id, entity_id, records[k], i));
    }
}

/// Finishing the record being filled keeps the upload state, with an empty record next.
proof fn lemma_close_record(
    attributes: Seq<AttributeView>,
    class_id: u16,
    entity_id: u16,
    i: int,
    mask: u16,
    values: Seq<u8>,
    records: Seq<UploadRecordView>,
    r0: int,
)
    requires
        upload_state(attributes, class_id, entity_id, i, mask, values, records, r0),
    ensures
        upload_core(
            attributes,
            class_id,
            entity_id,
            i,
            0,
            Seq::empty(),
            records.push(UploadRecordView { class_id, entity_id, attribute_mask: mask, values }),
            r0,
        ),
        records_packed(attributes, records.push(UploadRecordView { class_id, entity_id, attribute_mask: mask, values }), r0),
{
    let rec = UploadRecordView { class_id, entity_id, attribute_mask: mask, values };
    let out = records.push(rec);
    let n = records.len() as int;
    assert forall|j: int| i <= j < attributes.len() implies !mask_selects(mask, #[trigger] attributes[j]) by {}
    lemma_masked_tail(attributes, mask, i, attributes.len() as int);
    assert(attributes.take(attributes.len() as int) =~= attributes);
    assert(record_carries(attributes, class_id, entity_id, rec, i));
    assert forall|t: int| #[trigger] selected(0u16, t) == false by {
        lemma_select_more(0, 1, t);
    }
    assert forall|j: int| 0 <= j < attributes.len() implies !#[trigger] mask_selects(0u16, attributes[j]) by {
        assert(!selected(0u16, attributes[j].index as int));
    }
    assert(masked_values(attributes.take(i), 0u16) == Seq::<u8>::empty()) by {
        lemma_masked_same(attributes, 0u16, 0u16, i);
        assert forall|j: int| 0 <= j < i implies !mask_selects(0u16, #[trigger] attributes[j]) by {}
        lemma_masked_tail(attributes, 0u16, 0, i);
        assert(attributes.take(0) =~= Seq::<AttributeView>::empty());
    }
    assert forall|k: int| r0 <= k < out.len() implies record_carries(attributes, class_id, entity_id, #[trigger] out[k], i) by {
        if k < n {
            assert(out[k] == records[k]);
        }
    }
    assert forall|k: int| r0 <= k && k + 1 < out.len() implies #[trigger] closed_for_next(attributes, out, k) by {
        assert(out[k] == records[k]);
        if k + 1 < n {
            assert(out[k + 1] == records[k + 1]);
            assert(closed_for_next(attributes, records, k));
            let j = choose|j: int| #[trigger] closed_before(attributes, records[k], j) && starts_from(attributes, records[k + 1].attribute_mask, j);
            assert(closed_before(attributes, out[k], j));
        } else {
            assert(k == n - 1);
            assert(out[k + 1] == rec);
            let j = choose|j: int| j <= i && #[trigger] closed_before(attributes, records[records.len() - 1], j) && starts_from(attributes, mask, j);
            assert(closed_before(attributes, out[k], j));
        }
    }
    assert forall|k1: int, k2: int, j: int| r0 <= k1 < k2 < out.len() && 0 <= j < attributes.len()
        implies !(#[trigger] mask_selects(out[k1].attribute_mask, attributes[j]) && #[trigger] mask_selects(out[k2].attribute_mask, attributes[j])) by {
        assert(out[k1] == records[k1]);
        if k2 < n {
            assert(out[k2] == records[k2]);
        }
    }
    assert forall|j: int| 0 <= j < i && uploadable(#[trigger] attributes[j]) && attributes[j].value.len() <= UPLOAD_RECORD_CAPACITY
        implies mask_selects(0u16, attributes[j]) || reported(attributes, out, r0, j) by {
        if mask_selects(mask, attributes[j]) {
            assert(out[n] == rec);
            assert(mask_selects(out[n].attribute_mask, attributes[j]));
        } else {
            assert(reported(attributes, records, r0, j));
            let k = choose|k: int| r0 <= k < records.len() && #[trigger] mask_selects(records[k].attribute_mask, attributes[j]);
            assert(out[k] == records[k]);
            assert(mask_selects(out[k].attribute_mask, attributes[j]));
        }
    }
}

/// Adding uploadable attribute `i` to the record being filled keeps the upload state.
proof fn lemma_add_attribute(
    attributes: Seq<AttributeView>,
    class_id: u16,
    entity_id: u16,
    i: int,
    mask: u16,
    values: Seq<u8>,
    records: Seq<UploadRecordView>,
    r0: int,
)
    requires
        indices_increasing(attributes),
        upload_state(attributes, class_id, entity_id, i, mask, values, records, r0),
        i < attributes.len(),
        uploadable(attributes[i]),
    ensures
        upload_state(
            attributes,
            class_id,
            entity_id,
            i + 1,
            mask | spec_attribute_bit(attributes[i].index).unwrap(),
            values + attributes[i].value,
            records,
            r0,
        ),
{
    let a = attributes[i];
    let m2 = mask | spec_attribute_bit(a.index).unwrap();
    assert forall|j: int| 0 <= j < attributes.len() implies #[trigger] mask_selects(m2, attributes[j])
        == (mask_selects(mask, attributes[j]) || j == i) by {
        lemma_select_more(mask, a.index as int, attributes[j].index as int);
        if j != i {
            assert(attributes[j].index != a.index);
        }
    }
    assert forall|t: int| #[trigger] selected(m2, t) == (selected(mask, t) || (1 <= t <= 16 && t == a.index)) by {
        lemma_select_more(mask, a.index as int, t);
    }
    lemma_masked_same(attributes, mask, m2, i);
    lemma_masked_step(attributes, m2, i);
    lemma_carries_later(attributes, class_id, entity_id, records, r0, i);
    assert forall|j: int| 0 <= j < i + 1 && uploadable(#[trigger] attributes[j]) && attributes[j].value.len() <= UPLOAD_RECORD_CAPACITY
        implies mask_selects(m2, attributes[j]) || reported(attributes, records, r0, j) by {}
    assert forall|k: int, j: int| r0 <= k < records.len() && 0 <= j < attributes.len()
        implies !(#[trigger] mask_selects(records[k].attribute_mask, attributes[j]) && #[trigger] mask_selects(m2, attributes[j])) by {
        assert(record_carries(attributes, class_id, entity_id, records[k], i));
        if mask_selects(records[k].attribute_mask, attributes[j]) {
            assert(j < i);
        }
    }
}

/// Passing over attribute `i` without adding it keeps the upload state.
proof fn lemma_skip_attribute(
    attributes: Seq<AttributeView>,
    class_id: u16,
    entity_id: u16,
    i: int,
    mask: u16,
    values: Seq<u8>,
    records: Seq<UploadRecordView>,
    r0: int,
)
    requires
        upload_state(attributes, class_id, entity_id, i, mask, values, records, r0),
        i < attributes.len(),
        !(uploadable(attributes[i]) && attributes[i].value.len() <= UPLOAD_RECORD_CAPACITY),
    ensures
        upload_state(attributes, class_id, entity_id, i + 1, mask, values, records, r0),
{
    lemma_masked_step(attributes, mask, i);
    assert(!mask_selects(mask, attributes[i]));
    assert(values + Seq::<u8>::empty() =~= values);
    lemma_carries_later(attributes, class_id, entity_id, records, r0, i);
}

proof fn lemma_upload_steps(
    attributes: Seq<AttributeView>,
    class_id: u16,
    entity_id: u16,
    i: int,
    mask: u16,
    values: Seq<u8>,
    records: Seq<UploadRecordView>,
    r0: int,
)
    requires
        indices_increasing(attributes),
        upload_state(attributes, class_id, entity_id, i, mask, values, records, r0),
    ensures
        ({
            let out = spec_upload_entity(class_id, entity_id, attributes, i, mask, values, records);
            &&& upload_done(attributes, class_id, entity_id, out, r0)
            &&& out.len() >= records.len()
            &&& forall|k: int| 0 <= k < records.len() ==> #[trigger] out[k] == records[k]
        }),
    decreases attributes.len() - i,
{
    let len = attributes.len() as int;
    if i >= len {
        let rec = UploadRecordView { class_id, entity_id, attribute_mask: mask, values };
        lemma_close_record(attributes, class_id, entity_id, i, mask, values, records, r0);
        let closed = records.push(rec);
        assert forall|t: int| #[trigger] selected(0u16, t) == false by {
            lemma_select_more(0, 1, t);
        }
        if mask != 0 {
            assert(spec_upload_entity(class_id, entity_id, attributes, i, mask, values, records) == closed);
            assert forall|k: int| 0 <= k < records.len() implies #[trigger] closed[k] == records[k] by {}
        } else {
            assert forall|j: int| 0 <= j < attributes.len() implies !#[trigger] mask_selects(mask, attributes[j]) by {
                assert(!selected(0u16, attributes[j].index as int));
            }
        }
    } else {
        let a = attributes[i];
        if !uploadable(a) {
            lemma_skip_attribute(attributes, class_id, entity_id, i, mask, values, records, r0);
            lemma_upload_steps(attributes, class_id, entity_id, i + 1, mask, values, records, r0);
        } else {
            let bit = spec_attribute_bit(a.index).unwrap();
            let split = values.len() != 0 && values.len() + a.value.len() > UPLOAD_RECORD_CAPACITY;
            let mask1: u16 = if split { 0 } else { mask };
            let values1 = if split { Seq::empty() } else { values };
            let records1 = if split {
                records.push(UploadRecordView { class_id, entity_id, attribute_mask: mask, values })
            } else {
                records
            };
            if split {
                lemma_close_record(attributes, class_id, entity_id, i, mask, values, records, r0);
                let rec = UploadRecordView { class_id, entity_id, attribute_mask: mask, values };
                assert(records1[records1.len() - 1] == rec);
                assert(closed_before(attributes, rec, i));
                assert forall|j2: int| 0 <= j2 < attributes.len() && #[trigger] mask_selects(0u16, attributes[j2]) implies j2 >= i by {
                    lemma_select_more(0, 1, attributes[j2].index as int);
                }
                assert(starts_from(attributes, 0u16, i));
            }
            assert(upload_state(attributes, class_id, entity_id, i, mask1, values1, records1, r0));
            if a.value.len() <= UPLOAD_RECORD_CAPACITY {
                lemma_add_attribute(attributes, class_id, entity_id, i, mask1, values1, records1, r0);
                lemma_upload_steps(attributes, class_id, entity_id, i + 1, mask1 | bit, values1 + a.value, records1, r0);
            } else {
                lemma_skip_attribute(attributes, class_id, entity_id, i, mask1, values1, records1, r0);
                lemma_upload_steps(attributes, class_id, entity_id, i + 1, mask1, values1, records1, r0);
            }
            let out = spec_upload_entity(class_id, entity_id, attributes, i, mask, values, records);
            assert forall|k: int| 0 <= k < records.len() implies #[trigger] out[k] == records[k] by {
                assert(out[k] == records1[k]);
            }
        }
    }
}

/// The MIB Upload records of one instance, whose attributes are listed in
/// increasing index order: each record names the instance and carries the
/// values of exactly the attributes its mask selects, in ascending attribute
/// order; no attribute is selected by two records; a record is closed only
/// at an attribute that would not fit beside it, where the next one starts;
/// every uploadable scalar that fits a record is reported; and the records
/// before are kept.
pub proof fn lemma_upload_records_carry_their_attributes(
    class_id: u16,
    entity_id: u16,
    attributes: Seq<AttributeView>,
    records: Seq<UploadRecordView>,
)
    requires
        indices_increasing(attributes),
    ensures
        ({
            let out = spec_upload_entity(class_id, entity_id, attributes, 0, 0, Seq::empty(), records);
            &&& out.len() >= records.len()
            &&& forall|k: int| 0 <= k < records.len() ==> #[trigger] out[k] == records[k]
            &&& forall|k: int| records.len() <= k < out.len() ==> {
                let r = #[trigger] out[k];
                &&& r.class_id == class_id
                &&& r.entity_id == entity_id
                &&& r.values == masked_values(attributes, r.attribute_mask)
                &&& forall|j: int| 0 <= j < attributes.len() && #[trigger] mask_selects(r.attribute_mask, attributes[j]) ==> uploadable(attributes[j])
                &&& forall|t: int| #[trigger] selected(r.attribute_mask, t) ==> exists|j: int| 0 <= j < attributes.len() && (#[trigger] attributes[j]).index == t
            }
            &&& records_disjoint(attributes, out, records.len() as int)
            &&& records_packed(attributes, out, records.len() as int)
            &&& forall|j: int| 0 <= j < attributes.len() && uploadable(#[trigger] attributes[j]) && attributes[j].value.len() <= UPLOAD_RECORD_CAPACITY
                ==> reported(attributes, out, records.len() as int, j)
        }),
{
    let r0 = records.len() as int;
    assert forall|t: int| #[trigger] selected(0u16, t) == false by {
        lemma_select_more(0, 1, t);
    }
    assert forall|j: int| 0 <= j < attributes.len() implies !#[trigger] mask_selects(0u16, attributes[j]) by {
        assert(!selected(0u16, attributes[j].index as int));
    }
    assert(attributes.take(0) =~= Seq::<AttributeView>::empty());
    assert(upload_state(attributes, class_id, entity_id, 0, 0, Seq::empty(), records, r0));
    lemma_upload_steps(attributes, class_id, entity_id, 0, 0, Seq::empty(), records, r0);
    let out = spec_upload_entity(class_id, entity_id, attributes, 0, 0, Seq::empty(), records);
    assert forall|k: int| records.len() <= k < out.len() implies ({
        let r = #[trigger] out[k];
        &&& r.class_id == class_id
        &&& r.entity_id == entity_id
        &&& r.values == masked_values(attributes, r.attribute_mask)
        &&& forall|j: int| 0 <= j < attributes.len() && #[trigger] mask_selects(r.attribute_mask, attributes[j]) ==> uploadable(attributes[j])
        &&& forall|t: int| #[trigger] selected(r.attribute_mask, t) ==> exists|j: int| 0 <= j < attributes.len() && (#[trigger] attributes[j]).index == t
    }) by {
        assert(record_carries(attributes, class_id, entity_id, out[k], attributes.len() as int));
    }
}

/// The instance upload record `r` names.
pub open spec fn named_instance(entities: Seq<RecordView>, r: UploadRecordView) -> RecordView {
    entity_of(entities, r.class_id, r.entity_id).unwrap()
}

/// Upload record `r` names an instance of the MIB other than a LOID
/// authentication one and carries the values of exactly the uploadable
/// attributes of that instance its mask selects, in ascending attribute order.
pub open spec fn snapshot_record_carries(entities: Seq<RecordView>, r: UploadRecordView) -> bool {
    &&& entity_of(entities, r.class_id, r.entity_id) is Some
    &&& r.class_id != CLASS_CTC_LOID_AUTH
    &&& r.values == masked_values(named_instance(entities, r).attributes, r.attribute_mask)
    &&& forall|j: int| 0 <= j < named_instance(entities, r).attributes.len()
        && #[trigger] mask_selects(r.attribute_mask, named_instance(entities, r).attributes[j])
        ==> uploadable(named_instance(entities, r).attributes[j])
}

/// Two upload records of one instance select no attribute in common.
pub open spec fn snapshot_disjoint(entities: Seq<RecordView>, records: Seq<UploadRecordView>) -> bool {
    forall|i1: int, i2: int, j: int|
        0 <= i1 < i2 < records.len() && records[i1].class_id == records[i2].class_id && records[i1].entity_id == records[i2].entity_id
            && 0 <= j < named_instance(entities, records[i1]).attributes.len()
            ==> !(#[trigger] mask_selects(records[i1].attribute_mask, named_instance(entities, records[i1]).attributes[j])
            && #[trigger] mask_selects(records[i2].attribute_mask, named_instance(entities, records[i1]).attributes[j]))
}

/// Some upload record names instance `e` and selects its attribute `j`.
pub open spec fn snapshot_reports(records: Seq<UploadRecordView>, e: RecordView, j: int) -> bool {
    exists|i: int| 0 <= i < records.len() && records[i].class_id == e.class_id && records[i].entity_id == e.entity_id
        && #[trigger] mask_selects(records[i].attribute_mask, e.attributes[j])
}

/// The records of the first `k` instances: each carries what it selects,
/// none shares an attribute with another of its instance, each names an
/// instance before `k`, and each uploadable attribute that fits is reported.
pub open spec fn upload_all_state(entities: Seq<RecordView>, k: int, records: Seq<UploadRecordView>) -> bool {
    &&& 0 <= k <= entities.len()
    &&& forall|i: int| 0 <= i < records.len() ==> snapshot_record_carries(entities, #[trigger] records[i])
    &&& snapshot_disjoint(entities, records)
    &&& forall|i: int| 0 <= i < records.len() && k < entities.len()
        ==> pair_lt()(((#[trigger] records[i]).class_id, records[i].entity_id), record_key()(entities[k]))
    &&& forall|q: int, j: int| 0 <= q < k && entities[q].class_id != CLASS_CTC_LOID_AUTH && 0 <= j < entities[q].attributes.len()
        && uploadable(#[trigger] entities[q].attributes[j]) && entities[q].attributes[j].value.len() <= UPLOAD_RECORD_CAPACITY
        ==> snapshot_reports(records, entities[q], j)
}

proof fn lemma_record_indices(r: RecordView)
    requires
        record_wf(r),
    ensures
        indices_increasing(r.attributes),
{
    let a = r.attributes;
    assert forall|j1: int, j2: int| 0 <= j1 < j2 < a.len() implies (#[trigger] a[j1]).index < (#[trigger] a[j2]).index by {
        assert(super::entity::index_lt()(super::entity::attribute_key()(a[j1]), super::entity::attribute_key()(a[j2])));
    }
    assert forall|j: int| 0 <= j < a.len() implies 1 <= #[trigger] a[j].index <= 16 by {
        let x = a[j];
        assert(1 <= x.index <= 16);
    }
}

proof fn lemma_upload_all(entities: Seq<RecordView>, k: int, records: Seq<UploadRecordView>)
    requires
        entities_wf(entities),
        upload_all_state(entities, k, records),
    ensures
        upload_all_state(entities, entities.len() as int, spec_upload_records(entities, k, records)),
    decreases entities.len() - k,
{
    let len = entities.len() as int;
    if k < len {
        lemma_pair_order();
        let e = entities[k];
        if k + 1 < len {
            assert(pair_lt()(record_key()(entities[k]), record_key()(entities[k + 1])));
        }
        if e.class_id == CLASS_CTC_LOID_AUTH {
            assert(upload_all_state(entities, k + 1, records));
            lemma_upload_all(entities, k + 1, records);
        } else {
            let r0 = records.len() as int;
            let out = spec_upload_entity(e.class_id, e.entity_id, e.attributes, 0, 0, Seq::empty(), records);
            assert(record_wf(e));
            lemma_record_indices(e);
            lemma_upload_records_carry_their_attributes(e.class_id, e.entity_id, e.attributes, records);
            lemma_lookup_sorted(entities, k, record_key(), pair_lt());
            assert(entity_of(entities, e.class_id, e.entity_id) == Some(e));
            assert forall|i: int| 0 <= i < out.len() implies snapshot_record_carries(entities, #[trigger] out[i]) by {
                if i < r0 {
                    assert(out[i] == records[i]);
                } else {
                    assert(named_instance(entities, out[i]) == e);
                }
            }
            assert forall|i1: int, i2: int, j: int|
                0 <= i1 < i2 < out.len() && out[i1].class_id == out[i2].class_id && out[i1].entity_id == out[i2].entity_id
                    && 0 <= j < named_instance(entities, out[i1]).attributes.len()
                    implies !(#[trigger] mask_selects(out[i1].attribute_mask, named_instance(entities, out[i1]).attributes[j])
                    && #[trigger] mask_selects(out[i2].attribute_mask, named_instance(entities, out[i1]).attributes[j])) by {
                if i2 < r0 {
                    assert(out[i1] == records[i1] && out[i2] == records[i2]);
                } else if i1 < r0 {
                    assert(out[i1] == records[i1]);
                    assert(pair_lt()((records[i1].class_id, records[i1].entity_id), record_key()(e)));
                } else {
                    assert(named_instance(entities, out[i1]) == e);
                }
            }
            assert forall|i: int| 0 <= i < out.len() && k + 1 < len
                implies pair_lt()(((#[trigger] out[i]).class_id, out[i].entity_id), record_key()(entities[k + 1])) by {
                if i < r0 {
                    assert(out[i] == records[i]);
                    assert(pair_lt()((records[i].class_id, records[i].entity_id), record_key()(e)));
                }
            }
            assert forall|q: int, j: int| 0 <= q < k + 1 && entities[q].class_id != CLASS_CTC_LOID_AUTH && 0 <= j < entities[q].attributes.len()
                && uploadable(#[trigger] entities[q].attributes[j]) && entities[q].attributes[j].value.len() <= UPLOAD_RECORD_CAPACITY
                implies snapshot_reports(out, entities[q], j) by {
                if q < k {
                    let i = choose|i: int| 0 <= i < records.len() && records[i].class_id == entities[q].class_id
                        && records[i].entity_id == entities[q].entity_id
                        && #[trigger] mask_selects(records[i].attribute_mask, entities[q].attributes[j]);
                    assert(out[i] == records[i]);
                } else {
                    assert(reported(e.attributes, out, r0, j));
                    let i = choose|i: int| r0 <= i < out.len() && #[trigger] mask_selects(out[i].attribute_mask, e.attributes[j]);
                    assert(out[i].class_id == e.class_id);
                }
            }
            assert(upload_all_state(entities, k + 1, out));
            lemma_upload_all(entities, k + 1, out);
        }
    }
}

/// MIB Upload takes one upload record list of the whole MIB: each record
/// names an instance (never a LOID authentication one) and carries the values
/// of exactly the uploadable attributes its mask selects, in ascending
/// attribute order; two records of one instance share no attribute; and every
/// uploadable scalar that fits a record is reported.
pub proof fn lemma_mib_upload_records_carry_their_attributes(m: MibView, request: Request)
    requires
        entities_wf(m.entities),
        request.class_id == CLASS_ONU_DATA,
        request.entity_id == 0,
    ensures
        ({
            let snapshot = spec_mib_upload(m, request).0.upload_snapshot;
            &&& forall|i: int| 0 <= i < snapshot.len() ==> snapshot_record_carries(m.entities, #[trigger] snapshot[i])
            &&& snapshot_disjoint(m.entities, snapshot)
            &&& forall|q: int, j: int| 0 <= q < m.entities.len() && m.entities[q].class_id != CLASS_CTC_LOID_AUTH
                && 0 <= j < m.entities[q].attributes.len() && uploadable(#[trigger] m.entities[q].attributes[j])
                && m.entities[q].attributes[j].value.len() <= UPLOAD_RECORD_CAPACITY ==> snapshot_reports(snapshot, m.entities[q], j)
        }),
{
    assert(upload_all_state(m.entities, 0, Seq::empty()));
    lemma_upload_all(m.entities, 0, Seq::empty());
}

} // verus!
