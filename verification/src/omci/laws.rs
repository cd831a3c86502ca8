//! Properties of request handling that span more than one request.
use vstd::prelude::*;

use super::mib::{
    entities_wf, entity_of, entities_put, lemma_increment_lookup, lemma_pair_order, pair_lt, record_key,
    result_body, spec_create, spec_get, spec_get_scan, spec_set, spec_set_scan, spec_apply_write, spec_apply_writes, update_entity,
    with_attributes, lemma_update_entity_found, GetScan, SetScan, TableSnapshotView, spec_delete, spec_dispatch, spec_dynamic_entity, spec_filter_preassign,
    spec_increment_mib_sync, spec_mib_reset, sync_next, spec_upload_entity, spec_upload_records, spec_class_accepted, spec_dispatch_fails, spec_mib_upload, spec_get_next, spec_get_next_sequence, rows_concat,
    spec_single_bit, spec_entity_error, record_wf, spec_attribute_from_definition, spec_entity_from_definitions,
    UploadRecordView, CryptoOutcome, MibView, RecordView,
};
use super::entity::{
    attribute_of, attributes_replace, attributes_wf, lemma_attribute_of, lemma_replace, lemma_row_order, row_key, row_lt, rows_lookup, rows_sorted,
    AttributeView, RowView,
};
use super::handshake::SetUpdateView;
use super::bytes::{be16, be32};
use super::protocol::{
    spec_attribute_bit, spec_get_next_value_capacity, spec_get_value_capacity, Request, ACTION_GET_NEXT,
    ACTION_MIB_UPLOAD, ACTION_MIB_UPLOAD_NEXT, UPLOAD_RECORD_CAPACITY, ResponseBodyView, ACTION_CREATE, ACTION_DELETE, ACTION_MIB_RESET, ACTION_SET, ACTION_SET_TABLE,
    RESULT_SUCCESS, RESULT_UNKNOWN_ME, RESULT_COMMAND_NOT_SUPPORTED,
};
use super::schema::{
    AttributeDefinitionView, AttributeKind, CreateSource, ManagedEntityOrigin, CLASS_GEM_INTERWORKING_TP,
    CLASS_IEEE_8021P_MAPPER, CLASS_ONU_G, CLASS_VENDOR_351, spec_class_ids, CLASS_SOFTWARE_IMAGE, CLASS_TCONT,
    lemma_action_bits, spec_action_bit, spec_managed_entity, spec_supports_action, CLASS_CTC_LOID_AUTH, CLASS_ENHANCED_SECURITY_CONTROL,
    CLASS_MAC_BRIDGE_PORT_CONFIG_DATA, CLASS_MAC_BRIDGE_PORT_FILTER_PREASSIGN_DATA, CLASS_ONU_DATA,
};
use super::autonomous::{
    autonomous_instance, autonomous_upto, class_table_rows, lemma_class_rows_sorted, lemma_omci_base, message_table_rows,
    spec_any_supports, spec_omci_capability, TCONT_FIRST_ENTITY,
};
use super::config::{spec_fixed_width, spec_onu_g_serial, IdentityConfig};
use super::sorted::lookup_key;
use super::provisioning::{
    attr_u16, is_bridge_data_path, is_bridge_path, is_bridge_result, is_data_path, is_filtered_path, is_mapper_path,
    is_selected_path, is_service_path, snapshot_of, spec_mapper_fold, spec_mapper_path, spec_multicast, spec_pbit_path,
    spec_unicast, vid_valid, DataPathCandidate, ProvisioningSnapshot,
};
use super::sorted::{lemma_insert_sorted, lemma_lookup_found, lemma_remove_key};

verus! {

/// MIB Data Sync steps through 1..=255 and never comes back to zero, the
/// value that stands for a reset MIB.
pub proof fn lemma_mib_sync_cycles(value: u8)
    ensures
        1 <= sync_next(value) <= 255,
        value < 255 ==> sync_next(value) == value + 1,
        value == 255 ==> sync_next(value) == 1,
{
}

/// The entities a successful Create of a new instance leaves, before MIB
/// Data Sync advances, and where the new instance stands in them.
proof fn lemma_fresh_create(m: MibView, request: Request) -> (stored: Seq<RecordView>)
    requires
        entities_wf(m.entities),
        entity_of(m.entities, request.class_id, request.entity_id) is None,
        !(request.class_id == CLASS_ONU_DATA && request.entity_id == 0),
        spec_create(m, request).1 == result_body(RESULT_SUCCESS),
    ensures
        spec_create(m, request).0.entities == spec_increment_mib_sync(stored),
        super::sorted::sorted_by(stored, record_key(), pair_lt()),
        entity_of(stored, request.class_id, request.entity_id) == Some(RecordView {
            class_id: request.class_id,
            entity_id: request.entity_id,
            attributes: spec_dynamic_entity(request.class_id, request.payload@).unwrap(),
            olt_created: true,
        }),
        request.class_id == CLASS_MAC_BRIDGE_PORT_CONFIG_DATA
            ==> entity_of(stored, CLASS_MAC_BRIDGE_PORT_FILTER_PREASSIGN_DATA, request.entity_id) is Some,
        forall|c: u16, e: u16|
            !(c == request.class_id && e == request.entity_id)
                && !(request.class_id == CLASS_MAC_BRIDGE_PORT_CONFIG_DATA
                    && c == CLASS_MAC_BRIDGE_PORT_FILTER_PREASSIGN_DATA && e == request.entity_id)
                ==> #[trigger] entity_of(stored, c, e) == entity_of(m.entities, c, e),
{
    let c = request.class_id;
    let e = request.entity_id;
    lemma_pair_order();
    let record = RecordView {
        class_id: c,
        entity_id: e,
        attributes: spec_dynamic_entity(c, request.payload@).unwrap(),
        olt_created: true,
    };
    let first = entities_put(m.entities, record);
    lemma_insert_sorted(m.entities, record, record_key(), pair_lt());
    if c == CLASS_MAC_BRIDGE_PORT_CONFIG_DATA {
        let preassign = RecordView {
            class_id: CLASS_MAC_BRIDGE_PORT_FILTER_PREASSIGN_DATA,
            entity_id: e,
            attributes: spec_filter_preassign(),
            olt_created: false,
        };
        lemma_insert_sorted(first, preassign, record_key(), pair_lt());
        let stored = entities_put(first, preassign);
        assert(entity_of(stored, c, e) == entity_of(first, c, e));
        stored
    } else {
        first
    }
}

/// A Create repeated after it succeeded succeeds again and leaves the MIB,
/// MIB Data Sync included, as the first one left it: an OLT that lost the
/// response may send the request again.
pub proof fn lemma_create_is_idempotent(m: MibView, request: Request, first: CryptoOutcome, second: CryptoOutcome)
    requires
        entities_wf(m.entities),
        request.action == ACTION_CREATE,
        !(request.class_id == CLASS_ONU_DATA && request.entity_id == 0),
        spec_dispatch(m, request, first).1 == result_body(RESULT_SUCCESS),
    ensures
        spec_dispatch(spec_dispatch(m, request, first).0, request, second) == (
            spec_dispatch(m, request, first).0,
            result_body(RESULT_SUCCESS),
        ),
{
    let c = request.class_id;
    let e = request.entity_id;
    let m1 = spec_dispatch(m, request, first).0;
    assert(spec_dispatch(m, request, first) == spec_create(m, request));
    if entity_of(m.entities, c, e) is None {
        let stored = lemma_fresh_create(m, request);
        lemma_increment_lookup(stored, c, e);
        assert(entity_of(m1.entities, c, e) == entity_of(stored, c, e));
    }
    assert(spec_dispatch(m1, request, second) == spec_create(m1, request));
}

/// Deleting an instance the OLT has just created succeeds and brings every
/// other instance back to what it was before the Create; ONU data 0, whose
/// MIB Data Sync both requests advance, is the one left aside.
pub proof fn lemma_delete_undoes_create(m: MibView, create: Request, delete: Request)
    requires
        entities_wf(m.entities),
        delete.class_id == create.class_id,
        delete.entity_id == create.entity_id,
        !(create.class_id == CLASS_ONU_DATA && create.entity_id == 0),
        entity_of(m.entities, create.class_id, create.entity_id) is None,
        create.class_id == CLASS_MAC_BRIDGE_PORT_CONFIG_DATA
            ==> entity_of(m.entities, CLASS_MAC_BRIDGE_PORT_FILTER_PREASSIGN_DATA, create.entity_id) is None,
        spec_create(m, create).1 == result_body(RESULT_SUCCESS),
    ensures
        spec_delete(spec_create(m, create).0, delete).1 == result_body(RESULT_SUCCESS),
        forall|c: u16, e: u16|
            !(c == CLASS_ONU_DATA && e == 0) ==> #[trigger] entity_of(
                spec_delete(spec_create(m, create).0, delete).0.entities,
                c,
                e,
            ) == entity_of(m.entities, c, e),
{
    let cc = create.class_id;
    let ce = create.entity_id;
    let m1 = spec_create(m, create).0;
    let stored = lemma_fresh_create(m, create);
    lemma_increment_lookup(stored, cc, ce);
    lemma_pair_order();
    let removed = super::mib::entities_remove(m1.entities, cc, ce);
    lemma_remove_key(m1.entities, (cc, ce), record_key(), pair_lt());
    let both = if cc == CLASS_MAC_BRIDGE_PORT_CONFIG_DATA {
        super::mib::entities_remove(removed, CLASS_MAC_BRIDGE_PORT_FILTER_PREASSIGN_DATA, ce)
    } else {
        removed
    };
    if cc == CLASS_MAC_BRIDGE_PORT_CONFIG_DATA {
        lemma_remove_key(removed, (CLASS_MAC_BRIDGE_PORT_FILTER_PREASSIGN_DATA, ce), record_key(), pair_lt());
    }
    let m2 = spec_delete(m1, delete).0;
    assert(m2.entities == spec_increment_mib_sync(both));
    assert forall|c: u16, e: u16| !(c == CLASS_ONU_DATA && e == 0) implies #[trigger] entity_of(m2.entities, c, e)
        == entity_of(m.entities, c, e) by {
        lemma_increment_lookup(both, c, e);
        lemma_increment_lookup(stored, c, e);
        if c == cc && e == ce {
            assert(entity_of(removed, c, e) is None);
        } else if cc == CLASS_MAC_BRIDGE_PORT_CONFIG_DATA && c == CLASS_MAC_BRIDGE_PORT_FILTER_PREASSIGN_DATA && e == ce {
            assert(entity_of(both, c, e) is None);
        } else {
            assert(entity_of(removed, c, e) == entity_of(m1.entities, c, e));
            assert(entity_of(both, c, e) == entity_of(removed, c, e));
        }
    }
}

/// MIB Reset on ONU data 0 succeeds and puts every instance back to its
/// autonomous default; the CTC LOID authentication instance alone keeps its
/// attributes. The table snapshot, the upload snapshot, a pending master
/// session key and queued value changes are dropped.
pub proof fn lemma_mib_reset_restores_defaults(m: MibView, request: Request, outcome: CryptoOutcome)
    requires
        entities_wf(m.autonomous_defaults),
        request.action == ACTION_MIB_RESET,
        request.class_id == CLASS_ONU_DATA,
        request.entity_id == 0,
    ensures
        spec_dispatch(m, request, outcome).1 == result_body(RESULT_SUCCESS),
        forall|c: u16, e: u16|
            !(c == CLASS_CTC_LOID_AUTH && e == 0) ==> #[trigger] entity_of(
                spec_dispatch(m, request, outcome).0.entities,
                c,
                e,
            ) == entity_of(m.autonomous_defaults, c, e),
        entity_of(m.entities, CLASS_CTC_LOID_AUTH, 0) matches Some(r) ==> entity_of(
            spec_dispatch(m, request, outcome).0.entities,
            CLASS_CTC_LOID_AUTH,
            0,
        ) matches Some(s) && s.attributes == r.attributes,
        spec_dispatch(m, request, outcome).0.table_snapshot is None,
        spec_dispatch(m, request, outcome).0.upload_snapshot.len() == 0,
        spec_dispatch(m, request, outcome).0.pending_master_session_key is None,
        spec_dispatch(m, request, outcome).0.attribute_value_changes.len() == 0,
{
    lemma_action_bits();
    reveal(spec_managed_entity);
    let actions = spec_managed_entity(CLASS_ONU_DATA).unwrap().actions;
    assert(forall|a: u32, u: u32, n: u32, g: u32, h: u32|
        #[trigger] ((((((a | u) | n) | 0x8000u32) | g) | h) & 0x8000u32) != 0) by (bit_vector);
    assert(actions & spec_action_bit(ACTION_MIB_RESET) != 0);
    assert(spec_dispatch(m, request, outcome) == spec_mib_reset(m, request));
    let m1 = spec_mib_reset(m, request).0;
    lemma_pair_order();
    if let Some(r) = entity_of(m.entities, CLASS_CTC_LOID_AUTH, 0) {
        let kept = RecordView { olt_created: false, ..r };
        lemma_lookup_found(m.entities, (CLASS_CTC_LOID_AUTH, 0u16), record_key());
        assert(record_key()(kept) == (CLASS_CTC_LOID_AUTH, 0u16));
        lemma_insert_sorted(m.autonomous_defaults, kept, record_key(), pair_lt());
        assert(m1.entities == entities_put(m.autonomous_defaults, kept));
        assert forall|c: u16, e: u16| !(c == CLASS_CTC_LOID_AUTH && e == 0) implies #[trigger] entity_of(m1.entities, c, e)
            == entity_of(m.autonomous_defaults, c, e) by {
            assert((c, e) != record_key()(kept));
        }
    }
}

/// A Set is all or nothing: a Set that is not answered with success leaves
/// the whole MIB as it was, whatever the session crypto returned.
pub proof fn lemma_set_is_atomic(m: MibView, request: Request, outcome: CryptoOutcome)
    requires
        request.action == ACTION_SET,
    ensures
        spec_dispatch(m, request, outcome).1 != ResponseBodyView::SetSuccess ==> spec_dispatch(m, request, outcome).0 == m,
{
}

/// Requests other than Create, Delete, Set, Set Table and MIB Reset read the
/// MIB: they change no stored instance.
pub proof fn lemma_reads_keep_instances(m: MibView, request: Request, outcome: CryptoOutcome)
    requires
        request.action != ACTION_CREATE,
        request.action != ACTION_DELETE,
        request.action != ACTION_SET,
        request.action != ACTION_SET_TABLE,
        request.action != ACTION_MIB_RESET,
    ensures
        spec_dispatch(m, request, outcome).0.entities == m.entities,
{
}

/// The attribute `index` of the stored instance `(class_id, entity_id)`.
pub open spec fn stored_attribute(entities: Seq<RecordView>, class_id: u16, entity_id: u16, index: u8) -> Option<AttributeView> {
    match entity_of(entities, class_id, entity_id) {
        Some(r) => attribute_of(r.attributes, index),
        None => None,
    }
}

/// Mask bits of distinct attribute indices do not overlap.
proof fn lemma_single_mask(index: u8)
    requires
        1 <= index <= 16,
    ensures
        spec_attribute_bit(index).unwrap() != 0,
        forall|j: int| 1 <= j <= 16 && j != index ==> spec_attribute_bit(index).unwrap()
            & #[trigger] spec_attribute_bit(j as u8).unwrap() == 0,
        spec_attribute_bit(index).unwrap() & spec_attribute_bit(index).unwrap() != 0,
        0u16 | spec_attribute_bit(index).unwrap() == spec_attribute_bit(index).unwrap(),
{
    assert(forall|a: u16, b: u16| a < 16 && b < 16 && a != b ==> #[trigger] ((0x8000u16 >> a) & (0x8000u16 >> b)) == 0u16)
        by (bit_vector);
    assert(forall|a: u16| a < 16 ==> #[trigger] (0x8000u16 >> a) != 0u16) by (bit_vector);
    assert(forall|a: u16| a < 16 ==> #[trigger] ((0x8000u16 >> a) & (0x8000u16 >> a)) != 0u16) by (bit_vector);
    assert(forall|x: u16| #[trigger] (0u16 | x) == x) by (bit_vector);
    assert forall|j: int| 1 <= j <= 16 && j != index implies spec_attribute_bit(index).unwrap()
        & #[trigger] spec_attribute_bit(j as u8).unwrap() == 0 by {
        assert(((index - 1) as u16) != ((j - 1) as u16));
    }
}

/// A Set scan over a one-bit mask passes every index but the selected one.
proof fn lemma_set_scan_skip(attributes: Seq<AttributeView>, request: Request, k: int, cursor: int, updates: Seq<SetUpdateView>, index: u8)
    requires
        1 <= index <= 16,
        1 <= k <= 17,
        forall|j: int| 1 <= j <= 16 && j != index ==> request.attribute_mask & #[trigger] spec_attribute_bit(j as u8).unwrap() == 0,
    ensures
        k > index ==> spec_set_scan(attributes, request, k, cursor, updates) == (SetScan::Done { updates }),
        k <= index ==> spec_set_scan(attributes, request, k, cursor, updates) == spec_set_scan(attributes, request, index as int, cursor, updates),
    decreases 17 - k,
{
    if k <= 16 && k != index {
        assert(request.attribute_mask & spec_attribute_bit(k as u8).unwrap() == 0);
        lemma_set_scan_skip(attributes, request, k + 1, cursor, updates, index);
    }
}

/// A Get scan over a one-bit mask passes every index but the selected one.
proof fn lemma_get_scan_skip(
    attributes: Seq<AttributeView>,
    request: Request,
    k: int,
    mask: u16,
    values: Seq<u8>,
    table: Option<TableSnapshotView>,
    index: u8,
)
    requires
        1 <= index <= 16,
        1 <= k <= 17,
        forall|j: int| 1 <= j <= 16 && j != index ==> request.attribute_mask & #[trigger] spec_attribute_bit(j as u8).unwrap() == 0,
    ensures
        k > index ==> spec_get_scan(attributes, request, k, mask, values, table) == (GetScan::Done { mask, values, table }),
        k <= index ==> spec_get_scan(attributes, request, k, mask, values, table)
            == spec_get_scan(attributes, request, index as int, mask, values, table),
    decreases 17 - k,
{
    if k <= 16 && k != index {
        assert(request.attribute_mask & spec_attribute_bit(k as u8).unwrap() == 0);
        lemma_get_scan_skip(attributes, request, k + 1, mask, values, table, index);
    }
}

/// A Get of the one scalar attribute that a successful Set wrote returns the
/// bytes the Set carried for it, where they fit a Get response.
pub proof fn lemma_get_reads_back_set(m: MibView, set: Request, get: Request, outcome: CryptoOutcome, index: u8)
    requires
        entities_wf(m.entities),
        1 <= index <= 16,
        set.attribute_mask == spec_attribute_bit(index).unwrap(),
        get.attribute_mask == set.attribute_mask,
        get.class_id == set.class_id,
        get.entity_id == set.entity_id,
        !(set.class_id == CLASS_ENHANCED_SECURITY_CONTROL && set.entity_id == 0),
        !(set.class_id == CLASS_ONU_DATA && set.entity_id == 0),
        spec_set(m, set, outcome).1 == ResponseBodyView::SetSuccess,
        stored_attribute(m.entities, set.class_id, set.entity_id, index) matches Some(a)
            && a.table_row_len is None && a.value.len() <= spec_get_value_capacity(get.encoding),
    ensures
        stored_attribute(spec_set(m, set, outcome).0.entities, set.class_id, set.entity_id, index) == Some(AttributeView {
            value: set.content@.subrange(0, stored_attribute(m.entities, set.class_id, set.entity_id, index).unwrap().value.len() as int),
            ..stored_attribute(m.entities, set.class_id, set.entity_id, index).unwrap()
        }),
        spec_get(spec_set(m, set, outcome).0, get).1 == (ResponseBodyView::GetSuccess {
            attribute_mask: set.attribute_mask,
            values: set.content@.subrange(0, stored_attribute(m.entities, set.class_id, set.entity_id, index).unwrap().value.len() as int),
        }),
{
    let c = set.class_id;
    let e = set.entity_id;
    let r = entity_of(m.entities, c, e).unwrap();
    let a = attribute_of(r.attributes, index).unwrap();
    let len = a.value.len() as int;
    let v = set.content@.subrange(0, len);
    let bit = spec_attribute_bit(index).unwrap();
    lemma_single_mask(index);
    lemma_lookup_found(m.entities, (c, e), record_key());
    lemma_attribute_of(r.attributes, index);
    let u = SetUpdateView { index, value: v, is_table: false };
    lemma_set_scan_skip(r.attributes, set, 1, 0, Seq::empty(), index);
    lemma_set_scan_skip(r.attributes, set, index + 1, len, seq![u], index);
    assert(Seq::<SetUpdateView>::empty().push(u) == seq![u]);
    assert(spec_set_scan(r.attributes, set, 1, 0, Seq::empty()) == (SetScan::Done { updates: seq![u] }));
    assert(seq![u].drop_last() =~= Seq::<SetUpdateView>::empty());
    let written = AttributeView { value: v, ..a };
    let attributes = attributes_replace(r.attributes, written);
    assert(seq![u].last() == u);
    assert(spec_apply_writes(r.attributes, Seq::<SetUpdateView>::empty()) == r.attributes);
    assert(spec_apply_write(r.attributes, u) == attributes);
    assert(spec_apply_writes(r.attributes, seq![u]) == attributes);
    lemma_replace(r.attributes, written);
    let updated = update_entity(m.entities, c, e, with_attributes(attributes));
    lemma_update_entity_found(m.entities, c, e, with_attributes(attributes));
    lemma_increment_lookup(updated, c, e);
    let m1 = spec_set(m, set, outcome).0;
    assert(m1.entities == spec_increment_mib_sync(updated));
    assert(entity_of(m1.entities, c, e) == Some(RecordView { attributes, ..r }));
    lemma_get_scan_skip(attributes, get, 1, 0, Seq::empty(), None, index);
    lemma_get_scan_skip(attributes, get, index + 1, bit, v, None, index);
    assert(Seq::<u8>::empty() + v =~= v);
}

/// With enhanced security off its class is unknown: every request on it is
/// answered "unknown managed entity" and changes nothing.
pub proof fn lemma_disabled_security_is_unknown(m: MibView, request: Request, outcome: CryptoOutcome)
    requires
        !m.enhanced_security,
        request.class_id == CLASS_ENHANCED_SECURITY_CONTROL,
    ensures
        spec_dispatch(m, request, outcome) == (m, result_body(RESULT_UNKNOWN_ME)),
{
}

proof fn lemma_upload_entity_fits(
    class_id: u16,
    entity_id: u16,
    attributes: Seq<AttributeView>,
    i: int,
    mask: u16,
    values: Seq<u8>,
    records: Seq<UploadRecordView>,
)
    requires
        values.len() <= UPLOAD_RECORD_CAPACITY,
        forall|k: int| 0 <= k < records.len() ==> (#[trigger] records[k]).values.len() <= UPLOAD_RECORD_CAPACITY,
    ensures
        forall|k: int| 0 <= k < spec_upload_entity(class_id, entity_id, attributes, i, mask, values, records).len()
            ==> (#[trigger] spec_upload_entity(class_id, entity_id, attributes, i, mask, values, records)[k]).values.len()
                <= UPLOAD_RECORD_CAPACITY,
    decreases attributes.len() - i,
{
    if i >= attributes.len() || i < 0 {
        if mask != 0 {
            let out = records.push(UploadRecordView { class_id, entity_id, attribute_mask: mask, values });
            assert forall|k: int| 0 <= k < out.len() implies (#[trigger] out[k]).values.len() <= UPLOAD_RECORD_CAPACITY by {
                if k < records.len() {
                    assert(out[k] == records[k]);
                }
            }
        }
    } else {
        let a = attributes[i];
        if !a.upload || a.table_row_len is Some {
            assert(spec_upload_entity(class_id, entity_id, attributes, i, mask, values, records)
                == spec_upload_entity(class_id, entity_id, attributes, i + 1, mask, values, records));
            lemma_upload_entity_fits(class_id, entity_id, attributes, i + 1, mask, values, records);
        } else {
            let bit = spec_attribute_bit(a.index).unwrap();
            let split = values.len() != 0 && values.len() + a.value.len() > UPLOAD_RECORD_CAPACITY;
            let mask1: u16 = if split { 0 } else { mask };
            let values1 = if split { Seq::empty() } else { values };
            let records1 = if split {
                records.push(UploadRecordView { class_id, entity_id, attribute_mask: mask, values })
            } else {
                records
            };
            assert forall|k: int| 0 <= k < records1.len() implies (#[trigger] records1[k]).values.len() <= UPLOAD_RECORD_CAPACITY by {
                if split && k < records.len() {
                    assert(records1[k] == records[k]);
                }
            }
            if a.value.len() <= UPLOAD_RECORD_CAPACITY {
                assert((values1 + a.value).len() <= UPLOAD_RECORD_CAPACITY);
                assert(spec_upload_entity(class_id, entity_id, attributes, i, mask, values, records)
                    == spec_upload_entity(class_id, entity_id, attributes, i + 1, mask1 | bit, values1 + a.value, records1));
                lemma_upload_entity_fits(class_id, entity_id, attributes, i + 1, mask1 | bit, values1 + a.value, records1);
            } else {
                assert(spec_upload_entity(class_id, entity_id, attributes, i, mask, values, records)
                    == spec_upload_entity(class_id, entity_id, attributes, i + 1, mask1, values1, records1));
                lemma_upload_entity_fits(class_id, entity_id, attributes, i + 1, mask1, values1, records1);
            }
        }
    }
}

proof fn lemma_upload_records_fit(entities: Seq<RecordView>, k: int, records: Seq<UploadRecordView>)
    requires
        forall|j: int| 0 <= j < records.len() ==> (#[trigger] records[j]).values.len() <= UPLOAD_RECORD_CAPACITY,
    ensures
        forall|j: int| 0 <= j < spec_upload_records(entities, k, records).len()
            ==> (#[trigger] spec_upload_records(entities, k, records)[j]).values.len() <= UPLOAD_RECORD_CAPACITY,
    decreases entities.len() - k,
{
    if k < entities.len() && k >= 0 {
        let r = entities[k];
        if r.class_id == CLASS_CTC_LOID_AUTH {
            assert(spec_upload_records(entities, k, records) == spec_upload_records(entities, k + 1, records));
            lemma_upload_records_fit(entities, k + 1, records);
        } else {
            lemma_upload_entity_fits(r.class_id, r.entity_id, r.attributes, 0, 0, Seq::empty(), records);
            assert(spec_upload_records(entities, k, records) == spec_upload_records(
                entities,
                k + 1,
                spec_upload_entity(r.class_id, r.entity_id, r.attributes, 0, 0, Seq::empty(), records),
            ));
            lemma_upload_records_fit(
                entities,
                k + 1,
                spec_upload_entity(r.class_id, r.entity_id, r.attributes, 0, 0, Seq::empty(), records),
            );
        }
    }
}

/// Every record MIB Upload Next returns after a MIB Upload fits a baseline
/// response: MIB Upload splits an instance's attributes into records of at
/// most the upload capacity.
pub proof fn lemma_upload_records_fit_baseline(m: MibView, upload: Request, next: Request, outcome: CryptoOutcome)
    requires
        upload.action == ACTION_MIB_UPLOAD,
        upload.class_id == CLASS_ONU_DATA,
        upload.entity_id == 0,
        next.action == ACTION_MIB_UPLOAD_NEXT,
    ensures
        spec_dispatch(spec_dispatch(m, upload, outcome).0, next, outcome).1 matches ResponseBodyView::MibUploadNext {
            values,
            ..
        } ==> values.len() <= UPLOAD_RECORD_CAPACITY,
{
    lemma_action_bits();
    reveal(spec_managed_entity);
    assert(forall|a: u32, u: u32, n: u32, g: u32, h: u32|
        #[trigger] ((((((a | 0x2000u32) | u) | n) | g) | h) & 0x2000u32) != 0) by (bit_vector);
    assert(spec_dispatch(m, upload, outcome) == spec_mib_upload(m, upload));
    lemma_upload_records_fit(m.entities, 0, Seq::empty());
    let m1 = spec_dispatch(m, upload, outcome).0;
    let records = spec_upload_records(m.entities, 0, Seq::empty());
    assert(m1.upload_snapshot == records);
    let sequence = next.attribute_mask as int;
    if sequence < records.len() {
        assert(records[sequence].values.len() <= UPLOAD_RECORD_CAPACITY);
    }
}

/// Get Next returns at most the table bytes one response of the request's
/// encoding carries.
pub proof fn lemma_get_next_chunk_fits(m: MibView, request: Request, outcome: CryptoOutcome)
    requires
        request.action == ACTION_GET_NEXT,
        !spec_dispatch_fails(m, request),
    ensures
        spec_dispatch(m, request, outcome).1 matches ResponseBodyView::GetNextSuccess { values, .. }
            ==> values.len() <= spec_get_next_value_capacity(request.encoding),
{
}

/// A Get of one table attribute announces the table's byte length and keeps
/// its rows, one after another, for Get Next; Get Next then returns the table
/// chunk its sequence number selects.
pub proof fn lemma_get_next_reads_table(m: MibView, get: Request, next: Request, index: u8)
    requires
        entities_wf(m.entities),
        1 <= index <= 16,
        get.attribute_mask == spec_attribute_bit(index).unwrap(),
        stored_attribute(m.entities, get.class_id, get.entity_id, index) matches Some(a) && a.table_row_len is Some,
        next.class_id == get.class_id,
        next.entity_id == get.entity_id,
        next.attribute_mask == get.attribute_mask,
        next.content@.len() >= 2,
    ensures
        ({
            let bytes = rows_concat(stored_attribute(m.entities, get.class_id, get.entity_id, index).unwrap().rows);
            let bit = spec_attribute_bit(index).unwrap();
            let start = spec_get_next_sequence(next) * spec_get_next_value_capacity(next.encoding);
            let end = if start + spec_get_next_value_capacity(next.encoding) < bytes.len() {
                start + spec_get_next_value_capacity(next.encoding)
            } else {
                bytes.len() as int
            };
            &&& spec_get(m, get).1 == (ResponseBodyView::GetSuccess { attribute_mask: bit, values: be32(bytes.len() as u32) })
            &&& spec_get(m, get).0.table_snapshot == Some(TableSnapshotView {
                class_id: get.class_id,
                entity_id: get.entity_id,
                attribute_mask: bit,
                bytes,
            })
            &&& start < bytes.len() ==> spec_get_next(spec_get(m, get).0, next).1 == (ResponseBodyView::GetNextSuccess {
                attribute_mask: bit,
                values: bytes.subrange(start, end),
            })
        }),
{
    let r = entity_of(m.entities, get.class_id, get.entity_id).unwrap();
    let a = attribute_of(r.attributes, index).unwrap();
    let bit = spec_attribute_bit(index).unwrap();
    let bytes = rows_concat(a.rows);
    lemma_single_mask(index);
    assert(forall|x: u16| x < 16 ==> #[trigger] ((0x8000u16 >> x) & (((0x8000u16 >> x) - 1) as u16)) == 0u16) by (bit_vector);
    assert(spec_single_bit(get.attribute_mask));
    lemma_lookup_found(m.entities, (get.class_id, get.entity_id), record_key());
    lemma_attribute_of(r.attributes, index);
    let table = Some(TableSnapshotView { class_id: get.class_id, entity_id: get.entity_id, attribute_mask: bit, bytes });
    lemma_get_scan_skip(r.attributes, get, 1, 0, Seq::empty(), None, index);
    lemma_get_scan_skip(r.attributes, get, index + 1, bit, Seq::<u8>::empty() + be32(bytes.len() as u32), table, index);
    assert(Seq::<u8>::empty() + be32(bytes.len() as u32) =~= be32(bytes.len() as u32));
}

/// Every VLAN a provisioning snapshot lists is a valid VID (1 to 4094), every
/// upstream IGMP tag control is 0 to 3, and each data path with a valid VID
/// has it listed among the unicast or multicast VLANs, as the path is.
pub proof fn lemma_snapshot_vlans_are_valid(entities: Seq<RecordView>, snapshot: ProvisioningSnapshot)
    requires
        snapshot_of(entities, snapshot),
    ensures
        forall|i: int| 0 <= i < snapshot.vlan_ids@.len() ==> vid_valid(#[trigger] snapshot.vlan_ids@[i]),
        forall|i: int| 0 <= i < snapshot.multicast_vlan_ids@.len() ==> vid_valid(#[trigger] snapshot.multicast_vlan_ids@[i]),
        forall|i: int| 0 <= i < snapshot.igmp_upstream_vlan_ids@.len() ==> vid_valid(#[trigger] snapshot.igmp_upstream_vlan_ids@[i]),
        forall|i: int| 0 <= i < snapshot.igmp_upstream_tag_controls@.len() ==> #[trigger] snapshot.igmp_upstream_tag_controls@[i] <= 3,
        forall|i: int| 0 <= i < snapshot.data_paths@.len() && vid_valid((#[trigger] snapshot.data_paths@[i]).vlan_id) ==> {
            let p = snapshot.data_paths@[i];
            &&& p.multicast ==> snapshot.multicast_vlan_ids@.contains(p.vlan_id)
            &&& !p.multicast ==> snapshot.vlan_ids@.contains(p.vlan_id)
        },
{
    assert forall|i: int| 0 <= i < snapshot.vlan_ids@.len() implies vid_valid(#[trigger] snapshot.vlan_ids@[i]) by {
        assert(snapshot.vlan_ids@.contains(snapshot.vlan_ids@[i]));
    }
    assert forall|i: int| 0 <= i < snapshot.multicast_vlan_ids@.len() implies vid_valid(#[trigger] snapshot.multicast_vlan_ids@[i]) by {
        assert(snapshot.multicast_vlan_ids@.contains(snapshot.multicast_vlan_ids@[i]));
    }
    assert forall|i: int| 0 <= i < snapshot.igmp_upstream_vlan_ids@.len() implies vid_valid(#[trigger] snapshot.igmp_upstream_vlan_ids@[i]) by {
        assert(snapshot.igmp_upstream_vlan_ids@.contains(snapshot.igmp_upstream_vlan_ids@[i]));
    }
    assert forall|i: int| 0 <= i < snapshot.igmp_upstream_tag_controls@.len() implies #[trigger] snapshot.igmp_upstream_tag_controls@[i] <= 3 by {
        assert(snapshot.igmp_upstream_tag_controls@.contains(snapshot.igmp_upstream_tag_controls@[i]));
    }
    assert forall|i: int| 0 <= i < snapshot.data_paths@.len() && vid_valid((#[trigger] snapshot.data_paths@[i]).vlan_id) implies {
        let p = snapshot.data_paths@[i];
        &&& p.multicast ==> snapshot.multicast_vlan_ids@.contains(p.vlan_id)
        &&& !p.multicast ==> snapshot.vlan_ids@.contains(p.vlan_id)
    } by {
        let p = snapshot.data_paths@[i];
        assert(snapshot.data_paths@.contains(p));
        if p.multicast {
            assert(snapshot.multicast_vlan_ids@.contains(p.vlan_id));
        } else {
            assert(snapshot.vlan_ids@.contains(p.vlan_id));
        }
    }
}

/// Delete on a class the MIB handles: a missing instance is answered
/// "unknown instance" (or "unknown managed entity" for a class with no
/// instance known) and one the ONU created "command not supported", both
/// leaving the MIB as it was; an instance the OLT created is removed, with
/// the filter preassign data of a removed bridge port, and every other
/// instance but ONU data 0 (whose MIB Data Sync advances) is kept.
pub proof fn lemma_delete_outcomes(m: MibView, request: Request, outcome: CryptoOutcome)
    requires
        entities_wf(m.entities),
        request.action == ACTION_DELETE,
        spec_class_accepted(m, request),
        spec_supports_action(spec_managed_entity(request.class_id).unwrap().actions, ACTION_DELETE),
    ensures
        ({
            let (c, e) = (request.class_id, request.entity_id);
            let (m2, body) = spec_dispatch(m, request, outcome);
            &&& entity_of(m.entities, c, e) is None ==> m2 == m && body == result_body(spec_entity_error(m, c))
            &&& (entity_of(m.entities, c, e) is Some && !entity_of(m.entities, c, e).unwrap().olt_created) ==> m2 == m
                && body == result_body(RESULT_COMMAND_NOT_SUPPORTED)
            &&& (entity_of(m.entities, c, e) is Some && entity_of(m.entities, c, e).unwrap().olt_created) ==> {
                &&& body == result_body(RESULT_SUCCESS)
                &&& m2 == (MibView { entities: m2.entities, ..m })
                &&& entity_of(m2.entities, c, e) is None
                &&& c == CLASS_MAC_BRIDGE_PORT_CONFIG_DATA ==> entity_of(m2.entities, CLASS_MAC_BRIDGE_PORT_FILTER_PREASSIGN_DATA, e) is None
                &&& forall|c2: u16, e2: u16|
                    !(c2 == c && e2 == e) && !(c == CLASS_MAC_BRIDGE_PORT_CONFIG_DATA && c2 == CLASS_MAC_BRIDGE_PORT_FILTER_PREASSIGN_DATA
                        && e2 == e) && !(c2 == CLASS_ONU_DATA && e2 == 0) ==> #[trigger] entity_of(m2.entities, c2, e2)
                        == entity_of(m.entities, c2, e2)
            }
        }),
{
    let c = request.class_id;
    let e = request.entity_id;
    assert(spec_dispatch(m, request, outcome) == spec_delete(m, request));
    if let Some(r) = entity_of(m.entities, c, e) {
        if r.olt_created {
            lemma_pair_order();
            let removed = super::mib::entities_remove(m.entities, c, e);
            lemma_remove_key(m.entities, (c, e), record_key(), pair_lt());
            let both = if c == CLASS_MAC_BRIDGE_PORT_CONFIG_DATA {
                super::mib::entities_remove(removed, CLASS_MAC_BRIDGE_PORT_FILTER_PREASSIGN_DATA, e)
            } else {
                removed
            };
            if c == CLASS_MAC_BRIDGE_PORT_CONFIG_DATA {
                lemma_remove_key(removed, (CLASS_MAC_BRIDGE_PORT_FILTER_PREASSIGN_DATA, e), record_key(), pair_lt());
            }
            let m2 = spec_delete(m, request).0;
            assert(m2.entities == spec_increment_mib_sync(both));
            lemma_increment_lookup(both, c, e);
            if c == CLASS_MAC_BRIDGE_PORT_CONFIG_DATA {
                lemma_increment_lookup(both, CLASS_MAC_BRIDGE_PORT_FILTER_PREASSIGN_DATA, e);
                assert(entity_of(both, CLASS_MAC_BRIDGE_PORT_FILTER_PREASSIGN_DATA, e) is None);
            }
            assert(entity_of(both, c, e) is None);
            assert forall|c2: u16, e2: u16|
                !(c2 == c && e2 == e) && !(c == CLASS_MAC_BRIDGE_PORT_CONFIG_DATA && c2 == CLASS_MAC_BRIDGE_PORT_FILTER_PREASSIGN_DATA
                    && e2 == e) && !(c2 == CLASS_ONU_DATA && e2 == 0) implies #[trigger] entity_of(m2.entities, c2, e2)
                    == entity_of(m.entities, c2, e2) by {
                lemma_increment_lookup(both, c2, e2);
                assert(entity_of(removed, c2, e2) == entity_of(m.entities, c2, e2));
                assert(entity_of(both, c2, e2) == entity_of(removed, c2, e2));
            }
        }
    }
}

/// The Create contents an attribute needs: up to the end of its field where
/// it is a scalar the Create request must carry.
pub open spec fn required_end(d: AttributeDefinitionView) -> nat {
    match (d.kind, d.create) {
        (AttributeKind::Scalar { length }, CreateSource::Required { offset }) => (offset + length) as nat,
        _ => 0,
    }
}

/// The Create contents a class needs: the furthest end of its required scalars.
pub open spec fn required_payload_len(definitions: Seq<AttributeDefinitionView>) -> nat
    decreases definitions.len(),
{
    if definitions.len() == 0 {
        0
    } else {
        let rest = required_payload_len(definitions.drop_last());
        let last = required_end(definitions.last());
        if rest >= last { rest } else { last }
    }
}

proof fn lemma_definitions_build(definitions: Seq<AttributeDefinitionView>, payload: Seq<u8>)
    ensures
        (forall|k: int| 0 <= k < definitions.len() ==> (#[trigger] spec_attribute_from_definition(definitions[k], Some(payload))) is Some)
            == (payload.len() >= required_payload_len(definitions)),
    decreases definitions.len(),
{
    if definitions.len() > 0 {
        let rest = definitions.drop_last();
        lemma_definitions_build(rest, payload);
        if payload.len() >= required_payload_len(definitions) {
            assert forall|k: int| 0 <= k < definitions.len() implies (#[trigger] spec_attribute_from_definition(definitions[k], Some(payload))) is Some by {
                if k < rest.len() {
                    assert(definitions[k] == rest[k]);
                }
            }
        } else if payload.len() < required_payload_len(rest) {
            let k = choose|k: int| 0 <= k < rest.len() && !(#[trigger] spec_attribute_from_definition(rest[k], Some(payload)) is Some);
            assert(definitions[k] == rest[k]);
        } else {
            assert(!(spec_attribute_from_definition(definitions[definitions.len() - 1], Some(payload)) is Some));
        }
    }
}

/// An OLT-created instance can be built from Create contents exactly when
/// its class is registered as created by the OLT and the contents reach the
/// end of every attribute the Create request must carry.
pub proof fn lemma_create_needs_complete_payload(class_id: u16, payload: Seq<u8>)
    ensures
        (spec_dynamic_entity(class_id, payload) is Some) == (spec_managed_entity(class_id) matches Some(d)
            && d.origin == ManagedEntityOrigin::Olt && payload.len() >= required_payload_len(d.attributes)),
{
    if let Some(d) = spec_managed_entity(class_id) {
        lemma_definitions_build(d.attributes, payload);
        assert(spec_entity_from_definitions(d.attributes, Some(payload)) is Some == (payload.len() >= required_payload_len(d.attributes)));
    }
}

/// The value of attribute `index` of the autonomous instance `(class_id,
/// entity_id)` a freshly started ONU holds.
pub open spec fn start_value(identity: IdentityConfig, class_id: u16, entity_id: u16, index: u8) -> Option<Seq<u8>> {
    match autonomous_instance(identity, class_id, entity_id) {
        Some(attributes) => match attribute_of(attributes, index) {
            Some(a) => Some(a.value),
            None => None,
        },
        None => None,
    }
}

/// A freshly started ONU reports its identity: ONU-G carries the vendor ID
/// (four bytes) and the serial number, both software images the software
/// version (fourteen bytes), MIB Data Sync starts at zero, every T-CONT has
/// no Alloc-ID yet, and the enhanced-security instance exists unless the
/// identity disables it.
pub proof fn lemma_start_up_identity(identity: IdentityConfig)
    ensures
        start_value(identity, CLASS_ONU_G, 0, 1) == Some(spec_fixed_width(identity.vendor_id@, 4)),
        start_value(identity, CLASS_ONU_G, 0, 3) == Some(spec_onu_g_serial(identity.vendor_id@, identity.serial_number@)),
        start_value(identity, CLASS_SOFTWARE_IMAGE, 0, 1) == Some(spec_fixed_width(identity.software_version@, 14)),
        start_value(identity, CLASS_SOFTWARE_IMAGE, 1, 1) == Some(spec_fixed_width(identity.software_version@, 14)),
        start_value(identity, CLASS_ONU_DATA, 0, 1) == Some(seq![0u8]),
        forall|k: u16| k < 16 ==> #[trigger] start_value(identity, CLASS_TCONT, (TCONT_FIRST_ENTITY + k) as u16, 1) == Some(seq![0xffu8, 0xff]),
        (autonomous_instance(identity, CLASS_ENHANCED_SECURITY_CONTROL, 0) is Some) == !identity.disable_enhanced_security,
{
    reveal_with_fuel(autonomous_upto, 17);
    reveal_with_fuel(lookup_key, 4);
    assert(((0xffffu16 >> 8u16) as u8) == 0xffu8 && ((0xffffu16 & 0xffu16) as u8) == 0xffu8) by (bit_vector);
    assert(super::bytes::be16(0xffff) =~= seq![0xffu8, 0xff]);
}

/// Whether the OMCI class table lists class `c`: every class but the
/// vendor-specific class 351, and the enhanced-security class only while it
/// is enabled.
pub open spec fn class_listed(c: u16, enhanced: bool) -> bool {
    c != CLASS_VENDOR_351 && (enhanced || c != CLASS_ENHANCED_SECURITY_CONTROL)
}

proof fn lemma_class_table(classes: Seq<u16>, enhanced: bool)
    ensures
        forall|key: Seq<u8>| #[trigger] rows_lookup(class_table_rows(classes, enhanced), key) is Some
            <==> exists|i: int| 0 <= i < classes.len() && class_listed(classes[i], enhanced) && key == be16(#[trigger] classes[i]),
        forall|key: Seq<u8>| #[trigger] rows_lookup(class_table_rows(classes, enhanced), key) matches Some(r) ==> r == (key, key),
    decreases classes.len(),
{
    if classes.len() > 0 {
        let rest = classes.drop_last();
        let c = classes.last();
        let previous = class_table_rows(rest, enhanced);
        lemma_class_table(rest, enhanced);
        lemma_class_rows_sorted(rest, enhanced);
        lemma_row_order();
        let x: RowView = (be16(c), be16(c));
        if class_listed(c, enhanced) {
            super::sorted::lemma_insert_sorted(previous, x, row_key(), row_lt());
        }
        let rows = class_table_rows(classes, enhanced);
        assert forall|key: Seq<u8>| #[trigger] rows_lookup(rows, key) is Some implies rows_lookup(rows, key).unwrap() == (key, key) by {
            if !(class_listed(c, enhanced) && key == be16(c)) {
                assert(rows_lookup(rows, key) == rows_lookup(previous, key));
            }
        }
        assert forall|key: Seq<u8>| #[trigger] rows_lookup(rows, key) is Some
            <==> exists|i: int| 0 <= i < classes.len() && class_listed(classes[i], enhanced) && key == be16(#[trigger] classes[i]) by {
            if rows_lookup(rows, key) is Some {
                if class_listed(c, enhanced) && key == be16(c) {
                    assert(classes[classes.len() - 1] == c);
                } else {
                    assert(rows_lookup(previous, key) is Some);
                    let i = choose|i: int| 0 <= i < rest.len() && class_listed(rest[i], enhanced) && key == be16(#[trigger] rest[i]);
                    assert(classes[i] == rest[i]);
                }
            }
            if exists|i: int| 0 <= i < classes.len() && class_listed(classes[i], enhanced) && key == be16(#[trigger] classes[i]) {
                let i = choose|i: int| 0 <= i < classes.len() && class_listed(classes[i], enhanced) && key == be16(#[trigger] classes[i]);
                if i < rest.len() {
                    assert(rest[i] == classes[i]);
                    assert(rows_lookup(previous, key) is Some);
                }
            }
        }
    }
}

proof fn lemma_message_table(n: nat)
    requires
        n <= 256,
    ensures
        super::entity::rows_sorted(message_table_rows(n)),
        forall|key: Seq<u8>| #[trigger] rows_lookup(message_table_rows(n), key) is Some
            <==> exists|a: u8| a < n && spec_any_supports(a) && key == seq![a],
        forall|key: Seq<u8>| #[trigger] rows_lookup(message_table_rows(n), key) matches Some(r) ==> r == (key, key),
    decreases n,
{
    if n > 0 {
        let m = (n - 1) as nat;
        let action = (n - 1) as u8;
        let previous = message_table_rows(m);
        lemma_message_table(m);
        lemma_row_order();
        let x: RowView = (seq![action], seq![action]);
        if spec_any_supports(action) {
            super::sorted::lemma_insert_sorted(previous, x, row_key(), row_lt());
        }
        let rows = message_table_rows(n);
        assert forall|key: Seq<u8>| #[trigger] rows_lookup(rows, key) is Some implies rows_lookup(rows, key).unwrap() == (key, key) by {
            if !(spec_any_supports(action) && key == seq![action]) {
                assert(rows_lookup(rows, key) == rows_lookup(previous, key));
            }
        }
        assert forall|key: Seq<u8>| #[trigger] rows_lookup(rows, key) is Some
            <==> exists|a: u8| a < n && spec_any_supports(a) && key == seq![a] by {
            if exists|a: u8| a < n && spec_any_supports(a) && key == seq![a] {
                let a = choose|a: u8| a < n && spec_any_supports(a) && key == seq![a];
                if a < m {
                    assert(rows_lookup(previous, key) is Some);
                } else {
                    assert(a == action);
                }
            }
            if rows_lookup(rows, key) is Some && !(spec_any_supports(action) && key == seq![action]) {
                assert(rows_lookup(previous, key) is Some);
            }
        }
    }
}

/// The OMCI instance lists in its class table the key of every registered
/// class but class 351 (and class 332 only while enhanced security is
/// enabled), and in its message type table every action code below 32 that
/// some registered class accepts; each row holds its own key.
pub proof fn lemma_capability_tables(enhanced: bool)
    ensures
        ({
            let capability = spec_omci_capability(enhanced);
            &&& attribute_of(capability, 1) matches Some(classes) && {
                &&& forall|key: Seq<u8>| #[trigger] rows_lookup(classes.rows, key) is Some
                    <==> exists|c: u16| spec_class_ids().contains(c) && class_listed(c, enhanced) && key == be16(c)
                &&& forall|key: Seq<u8>| #[trigger] rows_lookup(classes.rows, key) matches Some(r) ==> r == (key, key)
            }
            &&& attribute_of(capability, 2) matches Some(messages) && {
                &&& forall|key: Seq<u8>| #[trigger] rows_lookup(messages.rows, key) is Some
                    <==> exists|a: u8| a < 32 && spec_any_supports(a) && key == seq![a]
                &&& forall|key: Seq<u8>| #[trigger] rows_lookup(messages.rows, key) matches Some(r) ==> r == (key, key)
            }
        }),
{
    lemma_omci_base();
    reveal_with_fuel(lookup_key, 3);
    let base = super::mib::spec_entity_from_definition(super::schema::CLASS_OMCI, None).unwrap();
    super::mib::lemma_entity_defined(super::schema::CLASS_OMCI);
    super::mib::lemma_defined_entity_wf(super::schema::CLASS_OMCI, None, super::schema::CLASS_OMCI, 0);
    let a1 = attribute_of(base, 1).unwrap();
    let with_classes = attributes_replace(base, AttributeView { rows: class_table_rows(spec_class_ids(), enhanced), ..a1 });
    lemma_replace(base, AttributeView { rows: class_table_rows(spec_class_ids(), enhanced), ..a1 });
    lemma_class_rows_sorted(spec_class_ids(), enhanced);
    let a2 = attribute_of(with_classes, 2).unwrap();
    lemma_replace(with_classes, AttributeView { rows: message_table_rows(32), ..a2 });
    lemma_class_table(spec_class_ids(), enhanced);
    lemma_message_table(32);
    let ids = spec_class_ids();
    assert forall|key: Seq<u8>| #[trigger] rows_lookup(class_table_rows(ids, enhanced), key) is Some
        <==> (exists|c: u16| ids.contains(c) && class_listed(c, enhanced) && key == be16(c)) by {
        if exists|c: u16| ids.contains(c) && class_listed(c, enhanced) && key == be16(c) {
            let c = choose|c: u16| ids.contains(c) && class_listed(c, enhanced) && key == be16(c);
            let i = choose|i: int| 0 <= i < ids.len() && ids[i] == c;
            assert(key == be16(ids[i]));
        }
    }
}

/// A multicast GEM interworking point activates its downstream GEM port:
/// the provisioning snapshot holds a multicast data path on that GEM port,
/// whether a multicast service path carries it or the GEM-wide path does.
pub proof fn lemma_multicast_gem_is_a_data_path(entities: Seq<RecordView>, snapshot: ProvisioningSnapshot, iwtp: u16)
    requires
        snapshot_of(entities, snapshot),
        spec_multicast(entities, iwtp) is Some,
    ensures
        exists|p: DataPathCandidate| #[trigger] snapshot.data_paths@.contains(p) && p.multicast
            && p.gem_id == spec_multicast(entities, iwtp).unwrap().gem_id,
{
    let c = spec_multicast(entities, iwtp).unwrap();
    if exists|d: DataPathCandidate| #[trigger] is_service_path(entities, d) && d.multicast && d.gem_id == c.gem_id {
        let d = choose|d: DataPathCandidate| #[trigger] is_service_path(entities, d) && d.multicast && d.gem_id == c.gem_id;
        assert(is_data_path(entities, d));
        assert(snapshot.data_paths@.contains(d));
    } else {
        assert(is_data_path(entities, c));
        assert(snapshot.data_paths@.contains(c));
    }
}

/// Whether attribute `i` is selected by an attribute mask.
pub open spec fn selected(mask: u16, i: int) -> bool {
    1 <= i <= 16 && mask & spec_attribute_bit(i as u8).unwrap() != 0
}

/// The contents a Set of an attribute takes: a whole row of a table, or the
/// value's length.
pub open spec fn write_length(a: AttributeView) -> int {
    match a.table_row_len {
        Some(row_len) => row_len as int,
        None => a.value.len() as int,
    }
}

/// A Set may write attribute `i`, where the mask selects it: the attribute
/// exists and is writable, and a table is the only attribute selected.
pub open spec fn set_write_ok(attributes: Seq<AttributeView>, mask: u16, i: int) -> bool {
    selected(mask, i) ==> (attribute_of(attributes, i as u8) matches Some(a) && a.writable
        && (a.table_row_len is Some ==> spec_single_bit(mask)))
}

/// The contents the selected attributes from `index` to 16 take together.
pub open spec fn selected_length(attributes: Seq<AttributeView>, mask: u16, index: int) -> int
    decreases 17 - index,
{
    if !(1 <= index <= 16) {
        0
    } else {
        let rest = selected_length(attributes, mask, index + 1);
        if selected(mask, index) && attribute_of(attributes, index as u8) is Some {
            write_length(attribute_of(attributes, index as u8).unwrap()) + rest
        } else {
            rest
        }
    }
}

proof fn lemma_selected_length_nonnegative(attributes: Seq<AttributeView>, mask: u16, index: int)
    ensures
        selected_length(attributes, mask, index) >= 0,
    decreases 17 - index,
{
    if 1 <= index <= 16 {
        lemma_selected_length_nonnegative(attributes, mask, index + 1);
    }
}

proof fn lemma_scan_done(attributes: Seq<AttributeView>, request: Request, index: int, cursor: int, updates: Seq<SetUpdateView>)
    requires
        1 <= index <= 17,
        0 <= cursor <= request.content@.len(),
    ensures
        (spec_set_scan(attributes, request, index, cursor, updates) is Done) == ((forall|i: int|
            index <= i <= 16 ==> #[trigger] set_write_ok(attributes, request.attribute_mask, i))
            && cursor + selected_length(attributes, request.attribute_mask, index) <= request.content@.len()),
    decreases 17 - index,
{
    let mask = request.attribute_mask;
    if index <= 16 {
        lemma_selected_length_nonnegative(attributes, mask, index + 1);
        if !selected(mask, index) {
            lemma_scan_done(attributes, request, index + 1, cursor, updates);
            if forall|i: int| index + 1 <= i <= 16 ==> #[trigger] set_write_ok(attributes, mask, i) {
                assert forall|i: int| index <= i <= 16 implies #[trigger] set_write_ok(attributes, mask, i) by {
                    if i == index {
                        assert(!selected(mask, i));
                    }
                }
            }
        } else {
            match attribute_of(attributes, index as u8) {
                None => {
                    assert(!set_write_ok(attributes, mask, index));
                },
                Some(a) => {
                    let length = write_length(a);
                    if !a.writable || (a.table_row_len is Some && !spec_single_bit(mask)) {
                        assert(!set_write_ok(attributes, mask, index));
                    } else if cursor + length > request.content@.len() {
                    } else {
                        lemma_scan_done(
                            attributes,
                            request,
                            index + 1,
                            cursor + length,
                            updates.push(SetUpdateView {
                                index: index as u8,
                                value: request.content@.subrange(cursor, cursor + length),
                                is_table: a.table_row_len is Some,
                            }),
                        );
                        if forall|i: int| index + 1 <= i <= 16 ==> #[trigger] set_write_ok(attributes, mask, i) {
                            assert forall|i: int| index <= i <= 16 implies #[trigger] set_write_ok(attributes, mask, i) by {
                                if i == index {
                                    assert(set_write_ok(attributes, mask, index));
                                }
                            }
                        }
                    }
                },
            }
        }
    }
}

/// A Set of an instance other than the enhanced-security one succeeds exactly
/// when its mask selects some attribute, every selected attribute exists and
/// is writable, a selected table is the only attribute selected, and the
/// contents cover the lengths of all selected attributes.
pub proof fn lemma_set_success_condition(m: MibView, request: Request, outcome: CryptoOutcome)
    requires
        request.action == ACTION_SET,
        spec_class_accepted(m, request),
        spec_supports_action(spec_managed_entity(request.class_id).unwrap().actions, ACTION_SET),
        entity_of(m.entities, request.class_id, request.entity_id) is Some,
        !(request.class_id == CLASS_ENHANCED_SECURITY_CONTROL && request.entity_id == 0),
    ensures
        ({
            let attributes = entity_of(m.entities, request.class_id, request.entity_id).unwrap().attributes;
            (spec_dispatch(m, request, outcome).1 == ResponseBodyView::SetSuccess) == (request.attribute_mask != 0
                && (forall|i: int| 1 <= i <= 16 ==> #[trigger] set_write_ok(attributes, request.attribute_mask, i))
                && selected_length(attributes, request.attribute_mask, 1) <= request.content@.len())
        }),
{
    let attributes = entity_of(m.entities, request.class_id, request.entity_id).unwrap().attributes;
    assert(spec_dispatch(m, request, outcome) == spec_set(m, request, outcome));
    lemma_scan_done(attributes, request, 1, 0, Seq::empty());
}

/// The writes a finished scan collected.
pub open spec fn scan_updates(scan: SetScan) -> Seq<SetUpdateView> {
    match scan {
        SetScan::Done { updates } => updates,
        SetScan::Fail { .. } => Seq::empty(),
    }
}

proof fn lemma_scan_updates(attributes: Seq<AttributeView>, request: Request, index: int, cursor: int, updates: Seq<SetUpdateView>)
    requires
        1 <= index <= 17,
        0 <= cursor <= request.content@.len(),
        spec_set_scan(attributes, request, index, cursor, updates) is Done,
        forall|k: int| 0 <= k < updates.len() ==> (#[trigger] updates[k]).index < index,
        forall|k1: int, k2: int| 0 <= k1 < k2 < updates.len() ==> (#[trigger] updates[k1]).index < (#[trigger] updates[k2]).index,
    ensures
        ({
            let r = scan_updates(spec_set_scan(attributes, request, index, cursor, updates));
            let mask = request.attribute_mask;
            &&& r.len() >= updates.len()
            &&& forall|k: int| 0 <= k < updates.len() ==> #[trigger] r[k] == updates[k]
            &&& forall|k1: int, k2: int| 0 <= k1 < k2 < r.len() ==> (#[trigger] r[k1]).index < (#[trigger] r[k2]).index
            &&& forall|k: int| updates.len() <= k < r.len() ==> {
                let u = #[trigger] r[k];
                let offset = cursor + selected_length(attributes, mask, index) - selected_length(attributes, mask, u.index as int);
                &&& index <= u.index <= 16
                &&& selected(mask, u.index as int)
                &&& attribute_of(attributes, u.index) is Some
                &&& u.is_table == (attribute_of(attributes, u.index).unwrap().table_row_len is Some)
                &&& u.value == request.content@.subrange(offset, offset + write_length(attribute_of(attributes, u.index).unwrap()))
            }
            &&& forall|i: int| index <= i <= 16 && #[trigger] selected(mask, i) ==> exists|k: int|
                updates.len() <= k < r.len() && (#[trigger] r[k]).index == i
        }),
    decreases 17 - index,
{
    let mask = request.attribute_mask;
    if index <= 16 {
        if !selected(mask, index) {
            lemma_scan_updates(attributes, request, index + 1, cursor, updates);
        } else {
            let a = attribute_of(attributes, index as u8).unwrap();
            let length = write_length(a);
            let u = SetUpdateView {
                index: index as u8,
                value: request.content@.subrange(cursor, cursor + length),
                is_table: a.table_row_len is Some,
            };
            let pushed = updates.push(u);
            assert(pushed[updates.len() as int] == u);
            assert forall|k: int| 0 <= k < pushed.len() implies (#[trigger] pushed[k]).index < index + 1 by {
                if k < updates.len() {
                    assert(pushed[k] == updates[k]);
                }
            }
            assert forall|k1: int, k2: int| 0 <= k1 < k2 < pushed.len() implies (#[trigger] pushed[k1]).index < (#[trigger] pushed[k2]).index by {
                assert(pushed[k1] == updates[k1]);
                if k2 < updates.len() {
                    assert(pushed[k2] == updates[k2]);
                }
            }
            lemma_selected_length_nonnegative(attributes, mask, index + 1);
            lemma_scan_updates(attributes, request, index + 1, cursor + length, pushed);
            let r = scan_updates(spec_set_scan(attributes, request, index, cursor, updates));
            assert(r[updates.len() as int] == u);
            assert forall|i: int| index <= i <= 16 && #[trigger] selected(mask, i) implies exists|k: int|
                updates.len() <= k < r.len() && (#[trigger] r[k]).index == i by {
                if i == index {
                    assert(r[updates.len() as int].index == i);
                }
            }
        }
    }
}

proof fn lemma_scalar_writes(attributes: Seq<AttributeView>, updates: Seq<SetUpdateView>)
    requires
        attributes_wf(attributes),
        forall|k: int| 0 <= k < updates.len() ==> !(#[trigger] updates[k]).is_table && attribute_of(attributes, updates[k].index) is Some,
        forall|k1: int, k2: int| 0 <= k1 < k2 < updates.len() ==> (#[trigger] updates[k1]).index != (#[trigger] updates[k2]).index,
    ensures
        attributes_wf(spec_apply_writes(attributes, updates)),
        forall|k: int| 0 <= k < updates.len() ==> attribute_of(spec_apply_writes(attributes, updates), (#[trigger] updates[k]).index)
            == Some(AttributeView { value: updates[k].value, ..attribute_of(attributes, updates[k].index).unwrap() }),
        forall|j: u8| (forall|k: int| 0 <= k < updates.len() ==> (#[trigger] updates[k]).index != j)
            ==> #[trigger] attribute_of(spec_apply_writes(attributes, updates), j) == attribute_of(attributes, j),
    decreases updates.len(),
{
    if updates.len() > 0 {
        let rest = updates.drop_last();
        let u = updates.last();
        let n = updates.len() - 1;
        assert forall|k1: int, k2: int| 0 <= k1 < k2 < rest.len() implies (#[trigger] rest[k1]).index != (#[trigger] rest[k2]).index by {
            assert(rest[k1] == updates[k1] && rest[k2] == updates[k2]);
        }
        assert forall|k: int| 0 <= k < rest.len() implies !(#[trigger] rest[k]).is_table && attribute_of(attributes, rest[k].index) is Some by {
            assert(rest[k] == updates[k]);
        }
        lemma_scalar_writes(attributes, rest);
        let cur = spec_apply_writes(attributes, rest);
        assert(updates[n] == u);
        assert forall|k: int| 0 <= k < rest.len() implies (#[trigger] rest[k]).index != u.index by {
            assert(rest[k] == updates[k]);
        }
        assert(attribute_of(cur, u.index) == attribute_of(attributes, u.index));
        let a = attribute_of(cur, u.index).unwrap();
        lemma_attribute_of(cur, u.index);
        let w = AttributeView { value: u.value, ..a };
        assert(spec_apply_write(cur, u) == attributes_replace(cur, w));
        lemma_replace(cur, w);
        assert forall|k: int| 0 <= k < updates.len() implies attribute_of(spec_apply_writes(attributes, updates), (#[trigger] updates[k]).index)
            == Some(AttributeView { value: updates[k].value, ..attribute_of(attributes, updates[k].index).unwrap() }) by {
            if k < n {
                assert(rest[k] == updates[k]);
            }
        }
        assert forall|j: u8| (forall|k: int| 0 <= k < updates.len() ==> (#[trigger] updates[k]).index != j)
            implies #[trigger] attribute_of(spec_apply_writes(attributes, updates), j) == attribute_of(attributes, j) by {
            assert(updates[n].index != j);
            assert forall|k: int| 0 <= k < rest.len() implies (#[trigger] rest[k]).index != j by {
                assert(rest[k] == updates[k]);
            }
        }
    }
}

/// A successful Set of scalar attributes writes the contents in ascending
/// attribute order: each selected attribute takes the next slice of its
/// length, and every attribute the mask leaves out keeps its value.
pub proof fn lemma_set_writes_consecutive_slices(m: MibView, request: Request, outcome: CryptoOutcome)
    requires
        entities_wf(m.entities),
        request.action == ACTION_SET,
        entity_of(m.entities, request.class_id, request.entity_id) is Some,
        !(request.class_id == CLASS_ENHANCED_SECURITY_CONTROL && request.entity_id == 0),
        !(request.class_id == CLASS_ONU_DATA && request.entity_id == 0),
        spec_dispatch(m, request, outcome).1 == ResponseBodyView::SetSuccess,
        forall|i: int| #[trigger] selected(request.attribute_mask, i)
            && attribute_of(entity_of(m.entities, request.class_id, request.entity_id).unwrap().attributes, i as u8) is Some
            ==> attribute_of(entity_of(m.entities, request.class_id, request.entity_id).unwrap().attributes, i as u8).unwrap().table_row_len is None,
    ensures
        ({
            let (c, e, mask) = (request.class_id, request.entity_id, request.attribute_mask);
            let attributes = entity_of(m.entities, c, e).unwrap().attributes;
            let after = spec_dispatch(m, request, outcome).0.entities;
            &&& forall|i: int| 1 <= i <= 16 && #[trigger] selected(mask, i) ==> {
                let a = attribute_of(attributes, i as u8).unwrap();
                let offset = selected_length(attributes, mask, 1) - selected_length(attributes, mask, i);
                stored_attribute(after, c, e, i as u8) == Some(AttributeView {
                    value: request.content@.subrange(offset, offset + write_length(a)),
                    ..a
                })
            }
            &&& forall|j: u8| !selected(mask, j as int) ==> #[trigger] stored_attribute(after, c, e, j) == attribute_of(attributes, j)
        }),
{
    let c = request.class_id;
    let e = request.entity_id;
    let mask = request.attribute_mask;
    let r = entity_of(m.entities, c, e).unwrap();
    let attributes = r.attributes;
    lemma_lookup_found(m.entities, (c, e), record_key());
    assert(record_wf(r));
    let scan = spec_set_scan(attributes, request, 1, 0, Seq::empty());
    assert(spec_dispatch(m, request, outcome) == spec_set(m, request, outcome));
    assert(scan is Done);
    lemma_scan_updates(attributes, request, 1, 0, Seq::empty());
    let updates = scan_updates(scan);
    assert(updates.len() >= 0);
    assert forall|k: int| 0 <= k < updates.len() implies !(#[trigger] updates[k]).is_table && attribute_of(attributes, updates[k].index) is Some by {
        assert(selected(mask, updates[k].index as int));
    }
    assert forall|k1: int, k2: int| 0 <= k1 < k2 < updates.len() implies (#[trigger] updates[k1]).index != (#[trigger] updates[k2]).index by {
        assert(updates[k1].index < updates[k2].index);
    }
    lemma_scalar_writes(attributes, updates);
    let written = spec_apply_writes(attributes, updates);
    let updated = update_entity(m.entities, c, e, with_attributes(written));
    lemma_update_entity_found(m.entities, c, e, with_attributes(written));
    lemma_increment_lookup(updated, c, e);
    let after = spec_dispatch(m, request, outcome).0.entities;
    assert(after == spec_increment_mib_sync(updated));
    assert(entity_of(after, c, e) == Some(RecordView { attributes: written, ..r }));
    assert forall|i: int| 1 <= i <= 16 && #[trigger] selected(mask, i) implies {
        let a = attribute_of(attributes, i as u8).unwrap();
        let offset = selected_length(attributes, mask, 1) - selected_length(attributes, mask, i);
        stored_attribute(after, c, e, i as u8) == Some(AttributeView {
            value: request.content@.subrange(offset, offset + write_length(a)),
            ..a
        })
    } by {
        let k = choose|k: int| 0 <= k < updates.len() && (#[trigger] updates[k]).index == i;
        assert(attribute_of(written, updates[k].index) == Some(AttributeView { value: updates[k].value, ..attribute_of(attributes, updates[k].index).unwrap() }));
    }
    assert forall|j: u8| !selected(mask, j as int) implies #[trigger] stored_attribute(after, c, e, j) == attribute_of(attributes, j) by {
        assert forall|k: int| 0 <= k < updates.len() implies (#[trigger] updates[k]).index != j by {
            assert(selected(mask, updates[k].index as int));
        }
    }
}

/// `c` carries the Alloc-ID and GEM port of the unicast path of some
/// bidirectional GEM port network CTP on an assigned T-CONT.
pub open spec fn unicast_origin(entities: Seq<RecordView>, c: DataPathCandidate) -> bool {
    &&& !c.multicast
    &&& exists|ctp: u16| #[trigger] spec_unicast(entities, ctp) matches Some(u) && u.alloc_id == c.alloc_id && u.gem_id == c.gem_id
}

/// `c` carries the Alloc-ID and GEM port of the downstream path of some
/// multicast GEM interworking point.
pub open spec fn multicast_origin(entities: Seq<RecordView>, c: DataPathCandidate) -> bool {
    &&& c.multicast
    &&& exists|iwtp: u16| #[trigger] spec_multicast(entities, iwtp) matches Some(u) && u.alloc_id == c.alloc_id && u.gem_id == c.gem_id
}

pub open spec fn path_origin(entities: Seq<RecordView>, c: DataPathCandidate) -> bool {
    unicast_origin(entities, c) || multicast_origin(entities, c)
}

proof fn lemma_pbit_path_origin(entities: Seq<RecordView>, mapper: u16, pbit: u8)
    ensures
        spec_pbit_path(entities, mapper, pbit) matches Some(c) ==> unicast_origin(entities, c),
{
    if let Some(c) = spec_pbit_path(entities, mapper, pbit) {
        let pointer = attr_u16(entities, CLASS_IEEE_8021P_MAPPER, mapper, (pbit + 2) as u8).unwrap();
        let ctp = match attr_u16(entities, CLASS_GEM_INTERWORKING_TP, pointer, 1) {
            Some(x) => x,
            None => pointer,
        };
        assert(spec_unicast(entities, ctp) == Some(c));
    }
}

proof fn lemma_mapper_fold_origin(entities: Seq<RecordView>, mapper: u16, gem_id: u16, n: nat)
    requires
        n <= 8,
    ensures
        spec_mapper_fold(entities, mapper, gem_id, n) matches Some(p) ==> unicast_origin(entities, p),
    decreases n,
{
    if n > 0 {
        lemma_mapper_fold_origin(entities, mapper, gem_id, (n - 1) as nat);
        lemma_pbit_path_origin(entities, mapper, (n - 1) as u8);
        if let Some(p) = spec_mapper_fold(entities, mapper, gem_id, n) {
            let previous = spec_mapper_fold(entities, mapper, gem_id, (n - 1) as nat);
            if let Some(q) = previous {
                let ctp = choose|ctp: u16| #[trigger] spec_unicast(entities, ctp) matches Some(u) && u.alloc_id == q.alloc_id && u.gem_id == q.gem_id;
                assert(spec_unicast(entities, ctp) matches Some(u) && u.alloc_id == p.alloc_id && u.gem_id == p.gem_id);
            } else {
                let c = spec_pbit_path(entities, mapper, (n - 1) as u8).unwrap();
                let ctp = choose|ctp: u16| #[trigger] spec_unicast(entities, ctp) matches Some(u) && u.alloc_id == c.alloc_id && u.gem_id == c.gem_id;
                assert(spec_unicast(entities, ctp) matches Some(u) && u.alloc_id == p.alloc_id && u.gem_id == p.gem_id);
            }
        }
    }
}

proof fn lemma_bridge_path_origin(entities: Seq<RecordView>, bridge: u16, c: DataPathCandidate)
    requires
        is_bridge_path(entities, bridge, c),
    ensures
        path_origin(entities, c),
{
    let pointer = attr_u16(entities, super::schema::CLASS_MAC_BRIDGE_PORT_CONFIG_DATA, bridge, 4).unwrap();
    if exists|gem_id: u16| #[trigger] spec_mapper_path(entities, pointer, gem_id) == Some(c) {
        let gem_id = choose|gem_id: u16| #[trigger] spec_mapper_path(entities, pointer, gem_id) == Some(c);
        lemma_mapper_fold_origin(entities, pointer, gem_id, 8);
    }
    if let Some(ctp) = attr_u16(entities, CLASS_GEM_INTERWORKING_TP, pointer, 1) {
        if spec_unicast(entities, ctp) == Some(c) {
            assert(unicast_origin(entities, c));
        }
    }
    if spec_multicast(entities, pointer) == Some(c) {
        assert(multicast_origin(entities, c));
    }
}

/// Every data path of a provisioning snapshot comes from the MIB: a unicast
/// path carries the Alloc-ID of an assigned T-CONT and the GEM port of a
/// bidirectional GEM port network CTP on it, and a multicast path the GEM
/// port a multicast GEM interworking point names (and no Alloc-ID, 0xffff).
pub proof fn lemma_data_paths_come_from_the_mib(entities: Seq<RecordView>, snapshot: ProvisioningSnapshot)
    requires
        snapshot_of(entities, snapshot),
    ensures
        forall|i: int| 0 <= i < snapshot.data_paths@.len() ==> path_origin(entities, #[trigger] snapshot.data_paths@[i]),
        forall|i: int| 0 <= i < snapshot.data_paths@.len() && (#[trigger] snapshot.data_paths@[i]).multicast
            ==> snapshot.data_paths@[i].alloc_id == 0xffff,
{
    assert forall|i: int| 0 <= i < snapshot.data_paths@.len() implies path_origin(entities, #[trigger] snapshot.data_paths@[i])
        && (snapshot.data_paths@[i].multicast ==> snapshot.data_paths@[i].alloc_id == 0xffff) by {
        let c = snapshot.data_paths@[i];
        assert(snapshot.data_paths@.contains(c));
        assert(is_data_path(entities, c));
        if is_bridge_data_path(entities, c) {
            let bridge = choose|bridge: u16| #[trigger] is_bridge_result(entities, bridge, c);
            if is_selected_path(entities, bridge, c) && super::provisioning::filter_selects(entities, bridge) {
                let (k, path) = choose|k: int, path: DataPathCandidate|
                    0 <= k < super::provisioning::filter_count(entities, bridge)
                        && 2 * k + 2 <= super::provisioning::filter_list(entities, bridge).len()
                        && is_bridge_path(entities, bridge, path)
                        && #[trigger] is_filtered_path(
                        super::provisioning::filter_operation(entities, bridge),
                        super::provisioning::filter_tci(super::provisioning::filter_list(entities, bridge), k),
                        path,
                        c,
                    );
                lemma_bridge_path_origin(entities, bridge, path);
                assert(c.alloc_id == path.alloc_id && c.gem_id == path.gem_id && c.multicast == path.multicast);
                if path.multicast {
                    let iwtp = choose|iwtp: u16| #[trigger] spec_multicast(entities, iwtp) matches Some(u) && u.alloc_id == path.alloc_id
                        && u.gem_id == path.gem_id;
                    assert(spec_multicast(entities, iwtp) matches Some(u) && u.alloc_id == c.alloc_id && u.gem_id == c.gem_id);
                } else {
                    let ctp = choose|ctp: u16| #[trigger] spec_unicast(entities, ctp) matches Some(u) && u.alloc_id == path.alloc_id
                        && u.gem_id == path.gem_id;
                    assert(spec_unicast(entities, ctp) matches Some(u) && u.alloc_id == c.alloc_id && u.gem_id == c.gem_id);
                }
            } else {
                lemma_bridge_path_origin(entities, bridge, c);
            }
        } else if is_service_path(entities, c) {
            assert(is_mapper_path(entities, c));
            let (mapper, gem_id) = choose|mapper: u16, gem_id: u16| #[trigger] spec_mapper_path(entities, mapper, gem_id) == Some(c);
            lemma_mapper_fold_origin(entities, mapper, gem_id, 8);
        } else {
            let iwtp = choose|iwtp: u16| #[trigger] spec_multicast(entities, iwtp) == Some(c);
            assert(multicast_origin(entities, c));
        }
        if c.multicast {
            let iwtp = choose|iwtp: u16| #[trigger] spec_multicast(entities, iwtp) matches Some(u) && u.alloc_id == c.alloc_id
                && u.gem_id == c.gem_id;
            assert(c.alloc_id == 0xffff);
        }
    }
}

} // verus!
