//! The ONU's OMCI management information base: managed-entity instances and
//! the handling of OLT requests against them.
use std::collections::BTreeSet;

use vstd::prelude::*;

use super::bytes::{be32, copy_bytes, slice_bytes, append_bytes, u32_bytes, zeros};
use super::entity::{
    attribute_of, attributes_wf, lemma_put_existing, rows_insert,
    rows_remove, rows_sorted, Attribute, AttributeView,
    ManagedEntity, RowView, TableRow, lemma_attribute_position, attribute_key, index_lt, value_present,
    attributes_replace, lemma_attribute_of, lemma_replace, same_layout, same_shape,
};
use super::protocol::{
    attribute_bit, ACTION_CREATE, ACTION_DELETE, ACTION_GET, ACTION_GET_ALL_ALARMS, ACTION_GET_ALL_ALARMS_NEXT,
    ACTION_GET_CURRENT_DATA, ACTION_GET_NEXT, ACTION_MIB_RESET, ACTION_MIB_UPLOAD, ACTION_MIB_UPLOAD_NEXT, ACTION_SET,
    ACTION_SET_TABLE, ACTION_SYNCHRONIZE_TIME, spec_get_next_value_capacity, spec_get_value_capacity, RESULT_ATTRIBUTE_FAILED,
    UPLOAD_RECORD_CAPACITY,
    spec_answer, spec_attribute_bit, Request, Response, ResponseBodyView, RESULT_COMMAND_NOT_SUPPORTED, RESULT_INSTANCE_EXISTS, RESULT_PARAMETER_ERROR, RESULT_SUCCESS,
    RESULT_UNKNOWN_INSTANCE, RESULT_UNKNOWN_ME,
};
use super::security::SessionCrypto;
use super::autonomous::{
    autonomous_instance, autonomous_upto, group_class, group_class_of, group_count, group_count_of, group_entity_of,
    group_first, group_first_of, group_instance, serial_array, GROUP_COUNT,
};
use super::config::{spec_onu_g_serial, IdentityConfig};
use super::provisioning::{
    attr_byte, attr_u16, attr_value, filter_count, filter_operation, filter_tci, is_bridge_path, is_filtered_path,
    is_selected_path, is_bridge_result, is_bridge_data_path, bridges_give_unicast, is_mapper_path, is_service_path,
    is_data_path, filter_selects, insert_candidate, set_candidates, spec_be_u16, tcont_filter, gem_port_filter,
    interworking_tp_filter, tcont_configured, record_vlan_rules, spec_vlan_rule_sum,
    extended_vid, row_word, row_gives_vid, record_gives_vid, insert_u16, insert_u8, set_u16, set_u8, subscriber_profile,
    acl_row_vid, record_acl_vid, record_tag_control, record_igmp_vid, is_broadcast_key_index,
    omci_text, snapshot_of, spec_olt_text, ProvisioningSnapshot, DataPathAttribute, DataPathEntity, DataPathGraph,
    DataPathTableRow, graph_attribute, graph_entity, graph_filter, spec_graph_entities, entity_views, spec_mapper_fold, spec_mapper_path, spec_multicast, spec_pbit_path,
    spec_tcont_alloc, spec_unicast, vid_valid, DataPathCandidate, DATA_PATH_VLAN_ANY,
};
use super::schema::{
    spec_supports_action, managed_entity, spec_managed_entity, lemma_attribute_definitions_are_wire_safe, attribute_wire_safe,
    attributes_wire_safe, AttributeAccess, AttributeDefinition, AttributeDefinitionView, AttributeKind,
    CreateSource, ManagedEntityOrigin,
    CLASS_CTC_LOID_AUTH, CLASS_ENHANCED_SECURITY_CONTROL, CLASS_MAC_BRIDGE_PORT_CONFIG_DATA,
    CLASS_MAC_BRIDGE_PORT_FILTER_PREASSIGN_DATA, CLASS_ONU_DATA, CLASS_ONU_G, CLASS_OMCI, CLASS_TCONT,
    CLASS_GEM_PORT_NETWORK_CTP, CLASS_GEM_INTERWORKING_TP, CLASS_MULTICAST_GEM_INTERWORKING_TP,
    CLASS_IEEE_8021P_MAPPER, CLASS_VLAN_TAGGING_FILTER, CLASS_EXTENDED_VLAN_TAGGING,
    CLASS_MULTICAST_OPERATIONS_PROFILE, CLASS_MULTICAST_SUBSCRIBER_CONFIG, CLASS_OLT_G,
};
use super::handshake::{
    blocks_view, challenges, replace_existing, install_challenges, received_result_is, security_record_wf,
    security_writes, set_attribute_value, spec_challenges, spec_install_challenges,
    spec_received_result, spec_security_writes, spec_set_first_byte, update_views, SetUpdate, SetUpdateView,
    set_state_byte,
};
use super::sorted::{
    insert_sorted, lemma_insert_sorted, lemma_insert_split, lemma_lookup_absent, lemma_lookup_at,
    lemma_lookup_sorted, lemma_remove_first, lemma_remove_key, lemma_remove_split, lookup_key,
    remove_key, sorted_by, strict_order, lemma_lookup_same_keys, lemma_sorted_same_keys,
};

verus! {

/// An autonomous notification that an attribute of an entity changed.
pub struct AttributeValueChange {
    pub class_id: u16,
    pub entity_id: u16,
    pub attribute_mask: u16,
    pub value: Vec<u8>,
}

pub ghost struct AttributeValueChangeView {
    pub class_id: u16,
    pub entity_id: u16,
    pub attribute_mask: u16,
    pub value: Seq<u8>,
}

impl View for AttributeValueChange {
    type V = AttributeValueChangeView;

    open spec fn view(&self) -> AttributeValueChangeView {
        AttributeValueChangeView {
            class_id: self.class_id,
            entity_id: self.entity_id,
            attribute_mask: self.attribute_mask,
            value: self.value@,
        }
    }
}

/// One stored entity instance.
pub ghost struct RecordView {
    pub class_id: u16,
    pub entity_id: u16,
    pub attributes: Seq<AttributeView>,
    /// Created by an OLT Create request (and so removable by Delete).
    pub olt_created: bool,
}

pub open spec fn record_key() -> spec_fn(RecordView) -> (u16, u16) {
    |record: RecordView| (record.class_id, record.entity_id)
}

pub open spec fn pair_lt() -> spec_fn((u16, u16), (u16, u16)) -> bool {
    |a: (u16, u16), b: (u16, u16)| a.0 < b.0 || (a.0 == b.0 && a.1 < b.1)
}

pub proof fn lemma_pair_order()
    ensures
        strict_order(pair_lt()),
{
}

/// The stored instance of `(class_id, entity_id)`.
pub open spec fn entity_of(entities: Seq<RecordView>, class_id: u16, entity_id: u16) -> Option<RecordView> {
    lookup_key(entities, (class_id, entity_id), record_key())
}

pub open spec fn entities_put(entities: Seq<RecordView>, record: RecordView) -> Seq<RecordView> {
    insert_sorted(entities, record, record_key(), pair_lt())
}

pub open spec fn entities_remove(entities: Seq<RecordView>, class_id: u16, entity_id: u16) -> Seq<RecordView> {
    remove_key(entities, (class_id, entity_id), record_key())
}

/// `attributes` with `f` applied to the attribute of `index`.
pub open spec fn update_attribute(
    attributes: Seq<AttributeView>,
    index: u8,
    f: spec_fn(AttributeView) -> AttributeView,
) -> Seq<AttributeView> {
    attributes.map_values(|a: AttributeView| if a.index == index { f(a) } else { a })
}

/// `entities` with `f` applied to the instance `(class_id, entity_id)`.
pub open spec fn update_entity(
    entities: Seq<RecordView>,
    class_id: u16,
    entity_id: u16,
    f: spec_fn(RecordView) -> RecordView,
) -> Seq<RecordView> {
    entities.map_values(|r: RecordView| if r.class_id == class_id && r.entity_id == entity_id { f(r) } else { r })
}

/// Invariants of one stored instance: attributes by wire index, tables of
/// rows long enough to carry a row key, and non-empty state attributes
/// where the request handling reads their first byte.
pub open spec fn record_wf(record: RecordView) -> bool {
    &&& attributes_wf(record.attributes)
    &&& forall|i: int| 0 <= i < record.attributes.len() ==> {
        let a = #[trigger] record.attributes[i];
        &&& 1 <= a.index <= 16
        &&& (a.writable && a.table_row_len is Some ==> a.table_row_len.unwrap() >= 8)
    }
    &&& (record.class_id == CLASS_ONU_DATA && record.entity_id == 0 ==> value_present(record.attributes, 1))
    &&& (record.class_id == CLASS_ENHANCED_SECURITY_CONTROL && record.entity_id == 0 ==> security_record_wf(record.attributes))
}

pub open spec fn entities_wf(entities: Seq<RecordView>) -> bool {
    &&& sorted_by(entities, record_key(), pair_lt())
    &&& forall|i: int| 0 <= i < entities.len() ==> record_wf(#[trigger] entities[i])
}

pub ghost struct TableSnapshotView {
    pub class_id: u16,
    pub entity_id: u16,
    pub attribute_mask: u16,
    pub bytes: Seq<u8>,
}

pub ghost struct UploadRecordView {
    pub class_id: u16,
    pub entity_id: u16,
    pub attribute_mask: u16,
    pub values: Seq<u8>,
}

pub ghost struct MibView {
    pub entities: Seq<RecordView>,
    /// The MIB Reset template.
    pub autonomous_defaults: Seq<RecordView>,
    pub known_classes: Set<u16>,
    /// Classes the OLT may create.
    pub dynamic_classes: Set<u16>,
    /// The table a Get started and Get Next continues.
    pub table_snapshot: Option<TableSnapshotView>,
    /// Records MIB Upload Next returns, taken at the last MIB Upload.
    pub upload_snapshot: Seq<UploadRecordView>,
    pub onu_serial: Seq<u8>,
    pub pending_master_session_key: Option<Seq<u8>>,
    pub attribute_value_changes: Seq<AttributeValueChangeView>,
    pub enhanced_security: bool,
}

/// The next MIB Data Sync value: it cycles through 1..=255.
pub open spec fn sync_next(value: u8) -> u8 {
    if value == 255 { 1 } else { (value + 1) as u8 }
}

/// The MIB with its data sync counter (ONU data attribute 1) advanced.
pub open spec fn spec_increment_mib_sync(entities: Seq<RecordView>) -> Seq<RecordView> {
    update_entity(
        entities,
        CLASS_ONU_DATA,
        0,
        |r: RecordView| RecordView {
            attributes: update_attribute(
                r.attributes,
                1,
                |a: AttributeView| AttributeView { value: a.value.update(0, sync_next(a.value[0])), ..a },
            ),
            ..r
        },
    )
}

/// The MIB after storing an instance; its class becomes known.
pub open spec fn spec_store(m: MibView, class_id: u16, entity_id: u16, attributes: Seq<AttributeView>, olt_created: bool) -> MibView {
    MibView {
        known_classes: m.known_classes.insert(class_id),
        entities: entities_put(
            m.entities,
            RecordView { class_id, entity_id, attributes, olt_created },
        ),
        ..m
    }
}

/// The MIB after storing `attributes` as an ONU-created instance.
pub open spec fn spec_insert(m: MibView, class_id: u16, entity_id: u16, attributes: Seq<AttributeView>) -> MibView {
    spec_store(m, class_id, entity_id, attributes, false)
}

/// The result code for a request on an instance that is not stored.
pub open spec fn spec_entity_error(m: MibView, class_id: u16) -> u8 {
    if m.known_classes.contains(class_id) { RESULT_UNKNOWN_INSTANCE } else { RESULT_UNKNOWN_ME }
}

struct EntityRecord {
    class_id: u16,
    entity_id: u16,
    entity: ManagedEntity,
    olt_created: bool,
}

impl View for EntityRecord {
    type V = RecordView;

    closed spec fn view(&self) -> RecordView {
        RecordView {
            class_id: self.class_id,
            entity_id: self.entity_id,
            attributes: self.entity@,
            olt_created: self.olt_created,
        }
    }
}

spec fn record_views(records: Seq<EntityRecord>) -> Seq<RecordView> {
    records.map_values(|r: EntityRecord| r@)
}

struct TableSnapshot {
    class_id: u16,
    entity_id: u16,
    attribute_mask: u16,
    bytes: Vec<u8>,
}

impl View for TableSnapshot {
    type V = TableSnapshotView;

    closed spec fn view(&self) -> TableSnapshotView {
        TableSnapshotView {
            class_id: self.class_id,
            entity_id: self.entity_id,
            attribute_mask: self.attribute_mask,
            bytes: self.bytes@,
        }
    }
}

struct UploadRecord {
    class_id: u16,
    entity_id: u16,
    attribute_mask: u16,
    values: Vec<u8>,
}

impl View for UploadRecord {
    type V = UploadRecordView;

    closed spec fn view(&self) -> UploadRecordView {
        UploadRecordView {
            class_id: self.class_id,
            entity_id: self.entity_id,
            attribute_mask: self.attribute_mask,
            values: self.values@,
        }
    }
}

spec fn upload_views(records: Seq<UploadRecord>) -> Seq<UploadRecordView> {
    records.map_values(|r: UploadRecord| r@)
}

pub open spec fn avc_views(changes: Seq<AttributeValueChange>) -> Seq<AttributeValueChangeView> {
    changes.map_values(|c: AttributeValueChange| c@)
}

spec fn snapshot_view(snapshot: Option<TableSnapshot>) -> Option<TableSnapshotView> {
    match snapshot {
        Some(s) => Some(s@),
        None => None,
    }
}

pub open spec fn key_view(key: Option<[u8; 16]>) -> Option<Seq<u8>> {
    match key {
        Some(k) => Some(k@),
        None => None,
    }
}

/// The OMCI management information base of one ONU.
pub struct Mib {
    entities: Vec<EntityRecord>,
    autonomous_defaults: Vec<EntityRecord>,
    known_classes: BTreeSet<u16>,
    dynamic_classes: BTreeSet<u16>,
    table_snapshot: Option<TableSnapshot>,
    upload_snapshot: Vec<UploadRecord>,
    onu_serial: [u8; 8],
    pending_master_session_key: Option<[u8; 16]>,
    attribute_value_changes: Vec<AttributeValueChange>,
    enhanced_security: bool,
}

impl View for Mib {
    type V = MibView;

    closed spec fn view(&self) -> MibView {
        MibView {
            entities: record_views(self.entities@),
            autonomous_defaults: record_views(self.autonomous_defaults@),
            known_classes: self.known_classes@,
            dynamic_classes: self.dynamic_classes@,
            table_snapshot: snapshot_view(self.table_snapshot),
            upload_snapshot: upload_views(self.upload_snapshot@),
            onu_serial: self.onu_serial@,
            pending_master_session_key: key_view(self.pending_master_session_key),
            attribute_value_changes: avc_views(self.attribute_value_changes@),
            enhanced_security: self.enhanced_security,
        }
    }
}

impl Mib {
    /// Invariants of the MIB: both entity tables hold well-formed instances in
    /// increasing key order, and the ONU serial number has eight bytes.
    pub open spec fn wf(&self) -> bool {
        &&& entities_wf(self@.entities)
        &&& entities_wf(self@.autonomous_defaults)
        &&& self@.onu_serial.len() == 8
    }

    /// An empty MIB with enhanced security enabled: no instances, no known classes.
    pub fn empty() -> (mib: Mib)
        ensures
            mib.wf(),
            mib@ == (MibView {
                entities: Seq::empty(),
                autonomous_defaults: Seq::empty(),
                known_classes: Set::empty(),
                dynamic_classes: Set::empty(),
                table_snapshot: None,
                upload_snapshot: Seq::empty(),
                onu_serial: seq![0u8, 0, 0, 0, 0, 0, 0, 0],
                pending_master_session_key: None,
                attribute_value_changes: Seq::empty(),
                enhanced_security: true,
            }),
    {
        let mib = Mib {
            entities: Vec::new(),
            autonomous_defaults: Vec::new(),
            known_classes: BTreeSet::new(),
            dynamic_classes: BTreeSet::new(),
            table_snapshot: None,
            upload_snapshot: Vec::new(),
            onu_serial: [0u8; 8],
            pending_master_session_key: None,
            attribute_value_changes: Vec::new(),
            enhanced_security: true,
        };
        proof {
            assert(mib@.entities =~= Seq::<RecordView>::empty());
            assert(mib@.autonomous_defaults =~= Seq::<RecordView>::empty());
            assert(mib@.upload_snapshot =~= Seq::<UploadRecordView>::empty());
            assert(mib@.attribute_value_changes =~= Seq::<AttributeValueChangeView>::empty());
            assert(mib@.onu_serial =~= seq![0u8, 0, 0, 0, 0, 0, 0, 0]);
        }
        mib
    }

    /// The stored instance `(class_id, entity_id)`, if present.
    pub fn entity(&self, class_id: u16, entity_id: u16) -> (entity: Option<&ManagedEntity>)
        requires
            self.wf(),
        ensures
            match entity {
                Some(e) => entity_of(self@.entities, class_id, entity_id) matches Some(r) && r.attributes == e@,
                None => entity_of(self@.entities, class_id, entity_id) is None,
            },
    {
        match find_record(&self.entities, class_id, entity_id) {
            Some(i) => Some(&self.entities[i].entity),
            None => None,
        }
    }
}

/// Position of the instance `(class_id, entity_id)`.
fn find_record(records: &Vec<EntityRecord>, class_id: u16, entity_id: u16) -> (found: Option<usize>)
    ensures
        found matches Some(i) ==> i < records.len() && records@[i as int].class_id == class_id
            && records@[i as int].entity_id == entity_id
            && entity_of(record_views(records@), class_id, entity_id) == Some(record_views(records@)[i as int]),
        found is None ==> entity_of(record_views(records@), class_id, entity_id) is None,
{
    let ghost v = record_views(records@);
    let mut i: usize = 0;
    while i < records.len()
        invariant
            i <= records.len(),
            v == record_views(records@),
            forall|j: int| 0 <= j < i ==> (#[trigger] v[j]).class_id != class_id || v[j].entity_id != entity_id,
        decreases records.len() - i,
    {
        assert(v[i as int] == records@[i as int]@);
        if records[i].class_id == class_id && records[i].entity_id == entity_id {
            proof {
                lemma_lookup_at(v, i as int, record_key());
            }
            return Some(i);
        }
        i += 1;
    }
    proof {
        lemma_lookup_absent(v, (class_id, entity_id), record_key());
    }
    None
}

/// Puts `record` in key order, replacing the instance of the same key.
fn put_record(records: &mut Vec<EntityRecord>, record: EntityRecord)
    requires
        sorted_by(record_views(old(records)@), record_key(), pair_lt()),
    ensures
        record_views(final(records)@) == entities_put(record_views(old(records)@), record@),
        sorted_by(record_views(final(records)@), record_key(), pair_lt()),
{
    let ghost v = record_views(records@);
    let ghost x = record@;
    proof {
        lemma_insert_sorted(v, x, record_key(), pair_lt());
    }
    let mut i: usize = 0;
    while i < records.len() && (records[i].class_id < record.class_id
        || (records[i].class_id == record.class_id && records[i].entity_id < record.entity_id))
        invariant
            i <= records.len(),
            v == record_views(records@),
            x == record@,
            forall|j: int| 0 <= j < i ==> pair_lt()(record_key()(#[trigger] v[j]), record_key()(x)),
        decreases records.len() - i,
    {
        i += 1;
    }
    proof {
        lemma_insert_split(v, x, i as int, record_key(), pair_lt());
    }
    let ghost tail = v.skip(i as int);
    if i < records.len() && records[i].class_id == record.class_id && records[i].entity_id == record.entity_id {
        assert(insert_sorted(tail, x, record_key(), pair_lt()) == seq![x] + tail.drop_first());
        records.set(i, record);
        assert(record_views(records@) =~= v.take(i as int) + (seq![x] + tail.drop_first()));
    } else if i < records.len() {
        assert(insert_sorted(tail, x, record_key(), pair_lt()) == seq![x] + tail);
        records.insert(i, record);
        assert(record_views(records@) =~= v.take(i as int) + (seq![x] + tail));
    } else {
        assert(tail =~= Seq::<RecordView>::empty());
        records.push(record);
        assert(record_views(records@) =~= v.take(i as int) + seq![x]);
    }
}

/// Removes the instance `(class_id, entity_id)`, if present.
fn remove_record(records: &mut Vec<EntityRecord>, class_id: u16, entity_id: u16)
    requires
        sorted_by(record_views(old(records)@), record_key(), pair_lt()),
    ensures
        record_views(final(records)@) == entities_remove(record_views(old(records)@), class_id, entity_id),
        sorted_by(record_views(final(records)@), record_key(), pair_lt()),
{
    let ghost v = record_views(records@);
    let ghost k = (class_id, entity_id);
    proof {
        lemma_remove_key(v, k, record_key(), pair_lt());
    }
    let mut i: usize = 0;
    while i < records.len()
        invariant
            i <= records.len(),
            v == record_views(records@),
            records == old(records),
            sorted_by(v, record_key(), pair_lt()),
            k == (class_id, entity_id),
            forall|j: int| 0 <= j < i ==> (#[trigger] v[j]).class_id != class_id || v[j].entity_id != entity_id,
        decreases records.len() - i,
    {
        assert(v[i as int] == records@[i as int]@);
        if records[i].class_id == class_id && records[i].entity_id == entity_id {
            proof {
                assert forall|j: int| 0 <= j < i implies record_key()(#[trigger] v[j]) != k by {
                    assert(v[j].class_id != class_id || v[j].entity_id != entity_id);
                }
                lemma_remove_split(v, k, i as int, record_key());
                let tail = v.skip(i as int);
                assert(tail[0] == v[i as int]);
                assert forall|a: int, b: int| 0 <= a < b < tail.len() implies pair_lt()(record_key()(#[trigger] tail[a]), record_key()(#[trigger] tail[b])) by {
                    assert(tail[a] == v[a + i] && tail[b] == v[b + i]);
                }
                lemma_remove_first(tail, record_key(), pair_lt());
            }
            records.remove(i);
            assert(record_views(records@) =~= v.take(i as int) + v.skip(i as int).drop_first());
            return;
        }
        i += 1;
    }
    proof {
        assert forall|j: int| 0 <= j < i implies record_key()(#[trigger] v[j]) != k by {
            assert(v[j].class_id != class_id || v[j].entity_id != entity_id);
        }
        lemma_remove_split(v, k, i as int, record_key());
        assert(v.skip(i as int) =~= Seq::<RecordView>::empty());
        assert(v.take(i as int) + Seq::<RecordView>::empty() =~= v);
    }
}


/// `update_entity` on a sorted list changes only the instance at the position of its key.
proof fn lemma_update_entity_at(s: Seq<RecordView>, p: int, f: spec_fn(RecordView) -> RecordView)
    requires
        sorted_by(s, record_key(), pair_lt()),
        0 <= p < s.len(),
    ensures
        update_entity(s, s[p].class_id, s[p].entity_id, f) == s.update(p, f(s[p])),
{
    assert forall|j: int| 0 <= j < s.len() && j != p implies (#[trigger] s[j]).class_id != s[p].class_id || s[j].entity_id != s[p].entity_id by {
        if j < p {
            assert(pair_lt()(record_key()(s[j]), record_key()(s[p])));
        } else {
            assert(pair_lt()(record_key()(s[p]), record_key()(s[j])));
        }
    }
    assert(update_entity(s, s[p].class_id, s[p].entity_id, f) =~= s.update(p, f(s[p])));
}

/// `update_entity` of an instance that is not stored changes nothing.
proof fn lemma_update_entity_absent(s: Seq<RecordView>, class_id: u16, entity_id: u16, f: spec_fn(RecordView) -> RecordView)
    requires
        entity_of(s, class_id, entity_id) is None,
    ensures
        update_entity(s, class_id, entity_id, f) == s,
{
    assert forall|j: int| 0 <= j < s.len() implies (#[trigger] s[j]).class_id != class_id || s[j].entity_id != entity_id by {
        if s[j].class_id == class_id && s[j].entity_id == entity_id {
            lemma_first_key(s, j, (class_id, entity_id));
        }
    }
    assert(update_entity(s, class_id, entity_id, f) =~= s);
}

/// Updating a stored instance with a key-preserving `f` keeps the order and
/// leaves `f` of the old instance under its key.
pub(crate) proof fn lemma_update_entity_found(s: Seq<RecordView>, c: u16, e: u16, f: spec_fn(RecordView) -> RecordView)
    requires
        sorted_by(s, record_key(), pair_lt()),
        entity_of(s, c, e) is Some,
        f(entity_of(s, c, e).unwrap()).class_id == c,
        f(entity_of(s, c, e).unwrap()).entity_id == e,
    ensures
        sorted_by(update_entity(s, c, e, f), record_key(), pair_lt()),
        entity_of(update_entity(s, c, e, f), c, e) == Some(f(entity_of(s, c, e).unwrap())),
{
    let r = entity_of(s, c, e).unwrap();
    super::sorted::lemma_lookup_found(s, (c, e), record_key());
    let p = choose|p: int| 0 <= p < s.len() && s[p] == r && record_key()(r) == (c, e);
    lemma_update_entity_at(s, p, f);
    let n = s.update(p, f(s[p]));
    assert forall|j: int| 0 <= j < s.len() implies record_key()(#[trigger] n[j]) == record_key()(s[j]) by {}
    lemma_sorted_same_keys(s, n, record_key(), pair_lt());
    lemma_pair_order();
    lemma_lookup_sorted(n, p, record_key(), pair_lt());
}

/// Advancing MIB Data Sync changes no key, and no instance but ONU data 0.
pub(crate) proof fn lemma_increment_lookup(s: Seq<RecordView>, c: u16, e: u16)
    requires
        sorted_by(s, record_key(), pair_lt()),
    ensures
        sorted_by(spec_increment_mib_sync(s), record_key(), pair_lt()),
        !(c == CLASS_ONU_DATA && e == 0) ==> entity_of(spec_increment_mib_sync(s), c, e) == entity_of(s, c, e),
        (entity_of(spec_increment_mib_sync(s), c, e) is Some) == (entity_of(s, c, e) is Some),
{
    let t = spec_increment_mib_sync(s);
    assert(t.len() == s.len());
    assert forall|j: int| 0 <= j < s.len() implies record_key()(#[trigger] t[j]) == record_key()(s[j]) by {}
    assert forall|j: int| 0 <= j < s.len() && record_key()(s[j]) != (CLASS_ONU_DATA, 0u16) implies #[trigger] t[j] == s[j] by {}
    lemma_sorted_same_keys(s, t, record_key(), pair_lt());
    lemma_lookup_same_keys(s, t, (CLASS_ONU_DATA, 0u16), (c, e), record_key());
}

proof fn lemma_first_key(s: Seq<RecordView>, j: int, k: (u16, u16))
    requires
        0 <= j < s.len(),
        record_key()(s[j]) == k,
    ensures
        lookup_key(s, k, record_key()) is Some,
    decreases j,
{
    if j > 0 && record_key()(s[0]) != k {
        lemma_first_key(s.drop_first(), j - 1, k);
    }
}

/// `update_attribute` of an index that is not present changes nothing.
proof fn lemma_update_attribute_absent(a: Seq<AttributeView>, index: u8, f: spec_fn(AttributeView) -> AttributeView)
    requires
        attribute_of(a, index) is None,
    ensures
        update_attribute(a, index, f) == a,
{
    assert forall|j: int| 0 <= j < a.len() implies (#[trigger] a[j]).index != index by {
        if a[j].index == index {
            lemma_first_index(a, j, index);
        }
    }
    assert(update_attribute(a, index, f) =~= a);
}

proof fn lemma_first_index(s: Seq<AttributeView>, j: int, k: u8)
    requires
        0 <= j < s.len(),
        s[j].index == k,
    ensures
        lookup_key(s, k, attribute_key()) is Some,
    decreases j,
{
    if j > 0 && s[0].index != k {
        lemma_first_index(s.drop_first(), j - 1, k);
    }
}

/// `update_attribute` on a well-formed list changes only the attribute at the position of its index.
proof fn lemma_update_attribute_at(a: Seq<AttributeView>, i: int, f: spec_fn(AttributeView) -> AttributeView)
    requires
        attributes_wf(a),
        0 <= i < a.len(),
    ensures
        update_attribute(a, a[i].index, f) == a.update(i, f(a[i])),
{
    lemma_attribute_position(a, i);
    assert(update_attribute(a, a[i].index, f) =~= a.update(i, f(a[i])));
}

/// Replacing one attribute by one of the same index, table kind and access, with
/// sorted rows and a value no emptier, keeps an instance well-formed.
proof fn lemma_record_attribute_wf(r: RecordView, i: int, a: AttributeView)
    requires
        record_wf(r),
        0 <= i < r.attributes.len(),
        a.index == r.attributes[i].index,
        a.writable == r.attributes[i].writable,
        a.table_row_len == r.attributes[i].table_row_len,
        rows_sorted(a.rows),
        r.attributes[i].value.len() > 0 ==> a.value.len() > 0,
    ensures
        record_wf(RecordView { attributes: r.attributes.update(i, a), ..r }),
{
    let n = r.attributes.update(i, a);
    lemma_put_existing(r.attributes, i, a);
    lemma_attribute_position(r.attributes, i);
    lemma_attribute_position(n, i);
    assert forall|k: u8| attribute_of(r.attributes, k) is Some implies attribute_of(n, k) is Some by {
        super::sorted::lemma_lookup_found(r.attributes, k, attribute_key());
        let m = choose|m: int| 0 <= m < r.attributes.len() && r.attributes[m] == attribute_of(r.attributes, k).unwrap() && r.attributes[m].index == k;
        assert(n[m].index == k);
        lemma_first_index(n, m, k);
    }
    assert forall|k: u8| value_present(r.attributes, k) implies value_present(n, k) by {
        if k == a.index {
        } else {
            if let Some(x) = attribute_of(n, k) {
                super::sorted::lemma_lookup_found(n, k, attribute_key());
                let m = choose|m: int| 0 <= m < n.len() && n[m] == x && x.index == k;
                assert(m != i);
                assert(n[m] == r.attributes[m]);
                super::sorted::lemma_insert_sorted(r.attributes, a, attribute_key(), index_lt());
            }
        }
    }
}

/// Replacing the instance at one position by a well-formed one of the same key keeps the list well-formed.
proof fn lemma_entities_update_wf(s: Seq<RecordView>, p: int, r: RecordView)
    requires
        entities_wf(s),
        0 <= p < s.len(),
        r.class_id == s[p].class_id,
        r.entity_id == s[p].entity_id,
        record_wf(r),
    ensures
        entities_wf(s.update(p, r)),
{
    let n = s.update(p, r);
    assert forall|i: int, j: int| 0 <= i < j < n.len() implies pair_lt()(record_key()(#[trigger] n[i]), record_key()(#[trigger] n[j])) by {
        assert(pair_lt()(record_key()(s[i]), record_key()(s[j])));
    }
}

proof fn lemma_entities_put_wf(s: Seq<RecordView>, r: RecordView)
    requires
        entities_wf(s),
        record_wf(r),
    ensures
        entities_wf(entities_put(s, r)),
        entity_of(entities_put(s, r), r.class_id, r.entity_id) == Some(r),
        forall|c: u16, e: u16| (c, e) != (r.class_id, r.entity_id) ==> #[trigger] entity_of(entities_put(s, r), c, e) == entity_of(s, c, e),
    decreases s.len(),
{
    lemma_pair_order();
    lemma_insert_sorted(s, r, record_key(), pair_lt());
    lemma_put_records_wf(s, r);
    assert forall|c: u16, e: u16| (c, e) != (r.class_id, r.entity_id) implies #[trigger] entity_of(entities_put(s, r), c, e) == entity_of(s, c, e) by {
        assert((c, e) != record_key()(r));
    }
}

proof fn lemma_put_records_wf(s: Seq<RecordView>, r: RecordView)
    requires
        forall|i: int| 0 <= i < s.len() ==> record_wf(#[trigger] s[i]),
        record_wf(r),
    ensures
        forall|i: int| 0 <= i < entities_put(s, r).len() ==> record_wf(#[trigger] entities_put(s, r)[i]),
    decreases s.len(),
{
    let n = entities_put(s, r);
    if s.len() > 0 && record_key()(s[0]) != record_key()(r) && !pair_lt()(record_key()(r), record_key()(s[0])) {
        let t = s.drop_first();
        assert forall|i: int| 0 <= i < t.len() implies record_wf(#[trigger] t[i]) by {
            assert(t[i] == s[i + 1]);
        }
        lemma_put_records_wf(t, r);
        assert(n == seq![s[0]] + entities_put(t, r));
        assert forall|i: int| 0 <= i < n.len() implies record_wf(#[trigger] n[i]) by {
            if i > 0 {
                assert(n[i] == entities_put(t, r)[i - 1]);
            }
        }
    } else if s.len() > 0 && record_key()(s[0]) == record_key()(r) {
        assert(n == seq![r] + s.drop_first());
        assert forall|i: int| 0 <= i < n.len() implies record_wf(#[trigger] n[i]) by {
            if i > 0 {
                assert(n[i] == s[i]);
            }
        }
    } else if s.len() > 0 {
        assert(n == seq![r] + s);
        assert forall|i: int| 0 <= i < n.len() implies record_wf(#[trigger] n[i]) by {
            if i > 0 {
                assert(n[i] == s[i - 1]);
            }
        }
    } else {
        assert(n == seq![r]);
    }
}

proof fn lemma_entities_remove_wf(s: Seq<RecordView>, class_id: u16, entity_id: u16)
    requires
        entities_wf(s),
    ensures
        entities_wf(entities_remove(s, class_id, entity_id)),
        entity_of(entities_remove(s, class_id, entity_id), class_id, entity_id) is None,
        forall|c: u16, e: u16| (c, e) != (class_id, entity_id) ==> #[trigger] entity_of(entities_remove(s, class_id, entity_id), c, e) == entity_of(s, c, e),
{
    lemma_pair_order();
    lemma_remove_key(s, (class_id, entity_id), record_key(), pair_lt());
    let n = entities_remove(s, class_id, entity_id);
    assert forall|j: int| 0 <= j < n.len() implies record_wf(#[trigger] n[j]) by {
        let m = choose|m: int| 0 <= m < s.len() && s[m] == n[j];
    }
}

fn take_record(records: &mut Vec<EntityRecord>, p: usize) -> (record: EntityRecord)
    requires
        p < old(records).len(),
    ensures
        record@ == record_views(old(records)@)[p as int],
        record_views(final(records)@) == record_views(old(records)@).remove(p as int),
        final(records).len() == old(records).len() - 1,
{
    let record = records.remove(p);
    assert(record_views(records@) =~= record_views(old(records)@).remove(p as int));
    record
}

fn restore_record(records: &mut Vec<EntityRecord>, p: usize, record: EntityRecord)
    requires
        p <= old(records).len(),
    ensures
        record_views(final(records)@) == record_views(old(records)@).insert(p as int, record@),
{
    let ghost r = record@;
    records.insert(p, record);
    assert(record_views(records@) =~= record_views(old(records)@).insert(p as int, r));
}

impl Mib {
    /// Replaces attribute `ai` of the instance at position `p`.
    fn replace_attribute(&mut self, p: usize, ai: usize, attribute: Attribute)
        requires
            p < old(self)@.entities.len(),
            ai < old(self)@.entities[p as int].attributes.len(),
            attribute@.index == old(self)@.entities[p as int].attributes[ai as int].index,
        ensures
            final(self)@ == (MibView {
                entities: old(self)@.entities.update(
                    p as int,
                    RecordView {
                        attributes: old(self)@.entities[p as int].attributes.update(ai as int, attribute@),
                        ..old(self)@.entities[p as int]
                    },
                ),
                ..old(self)@
            }),
    {
        let ghost a = attribute@;
        let ghost before = record_views(self.entities@);
        assert(self.entities.len() == self@.entities.len());
        let mut record = take_record(&mut self.entities, p);
        record.entity.replace_at(ai, attribute);
        restore_record(&mut self.entities, p, record);
        assert(record_views(self.entities@) =~= before.update(
            p as int,
            RecordView { attributes: before[p as int].attributes.update(ai as int, a), ..before[p as int] },
        ));
    }

    /// Advances the MIB Data Sync counter.
    fn increment_mib_sync(&mut self)
        requires
            old(self).wf(),
        ensures
            final(self).wf(),
            final(self)@ == (MibView { entities: spec_increment_mib_sync(old(self)@.entities), ..old(self)@ }),
    {
        let ghost f = |r: RecordView| RecordView {
            attributes: update_attribute(
                r.attributes,
                1,
                |a: AttributeView| AttributeView { value: a.value.update(0, sync_next(a.value[0])), ..a },
            ),
            ..r
        };
        let ghost g = |a: AttributeView| AttributeView { value: a.value.update(0, sync_next(a.value[0])), ..a };
        match find_record(&self.entities, CLASS_ONU_DATA, 0) {
            None => {
                proof {
                    lemma_update_entity_absent(self@.entities, CLASS_ONU_DATA, 0, f);
                }
            },
            Some(p) => {
                let ghost r = self@.entities[p as int];
                assert(r == record_views(self.entities@)[p as int]);
                proof {
                    lemma_update_entity_at(self@.entities, p as int, f);
                }
                match self.entities[p].entity.find(1) {
                    None => {
                        proof {
                            lemma_update_attribute_absent(r.attributes, 1, g);
                            assert(f(r) == r);
                            assert(self@.entities.update(p as int, r) =~= self@.entities);
                        }
                    },
                    Some(ai) => {
                        let attribute = self.entities[p].entity.attribute_at(ai);
                        assert(value_present(r.attributes, 1));
                        let mut value = copy_bytes(attribute.value().as_slice());
                        let current = value[0];
                        let next = if current == 255 { 1 } else { current + 1 };
                        value.set(0, next);
                        let updated = attribute.duplicate().with_value(value);
                        proof {
                            lemma_update_attribute_at(r.attributes, ai as int, g);
                            lemma_record_attribute_wf(r, ai as int, updated@);
                            lemma_entities_update_wf(self@.entities, p as int, RecordView { attributes: r.attributes.update(ai as int, updated@), ..r });
                            assert(updated@ == g(r.attributes[ai as int]));
                        }
                        self.replace_attribute(p, ai, updated);
                    },
                }
            },
        }
    }
}


pub open spec fn payload_view(payload: Option<&[u8]>) -> Option<Seq<u8>> {
    match payload {
        Some(p) => Some(p@),
        None => None,
    }
}

/// The attribute a definition gives an instance, with its value taken from the
/// Create contents where the definition says so; `None` where a required value
/// lies beyond the contents.
pub open spec fn spec_attribute_from_definition(d: AttributeDefinitionView, payload: Option<Seq<u8>>) -> Option<AttributeView> {
    let table_row_len = match d.kind {
        AttributeKind::Scalar { .. } => None,
        AttributeKind::Table { row_length } => Some(row_length),
    };
    let value: Option<Seq<u8>> = match d.kind {
        AttributeKind::Table { .. } => Some(Seq::empty()),
        AttributeKind::Scalar { length } => {
            let default_value = if d.default.len() == 0 { Seq::new(length as nat, |i: int| 0u8) } else { d.default };
            match (payload, d.create) {
                (Some(p), CreateSource::Required { offset }) => if offset + length <= p.len() {
                    Some(p.subrange(offset as int, offset + length))
                } else {
                    None
                },
                (Some(p), CreateSource::Optional { offset }) => if offset + length <= p.len() {
                    Some(p.subrange(offset as int, offset + length))
                } else {
                    Some(default_value)
                },
                _ => Some(default_value),
            }
        },
    };
    match value {
        Some(v) => Some(AttributeView {
            index: d.index,
            value: v,
            writable: d.access == AttributeAccess::ReadWrite,
            table_row_len,
            rows: Seq::empty(),
            upload: d.upload,
        }),
        None => None,
    }
}

/// The attributes of a new instance built from `definitions`, or `None` where one cannot be built.
pub open spec fn spec_entity_from_definitions(definitions: Seq<AttributeDefinitionView>, payload: Option<Seq<u8>>) -> Option<Seq<AttributeView>> {
    if forall|k: int| 0 <= k < definitions.len() ==> (#[trigger] spec_attribute_from_definition(definitions[k], payload)) is Some {
        Some(definitions.map_values(|d: AttributeDefinitionView| spec_attribute_from_definition(d, payload).unwrap()))
    } else {
        None
    }
}

/// A new instance of `class_id` as its definition describes it.
pub open spec fn spec_entity_from_definition(class_id: u16, payload: Option<Seq<u8>>) -> Option<Seq<AttributeView>> {
    match spec_managed_entity(class_id) {
        Some(d) => spec_entity_from_definitions(d.attributes, payload),
        None => None,
    }
}

/// A new OLT-created instance of `class_id` from its Create contents.
pub open spec fn spec_dynamic_entity(class_id: u16, payload: Seq<u8>) -> Option<Seq<AttributeView>> {
    match spec_managed_entity(class_id) {
        Some(d) => if d.origin == ManagedEntityOrigin::Olt {
            spec_entity_from_definitions(d.attributes, Some(payload))
        } else {
            None
        },
        None => None,
    }
}

/// The filter-preassign instance that accompanies a MAC bridge port.
pub open spec fn spec_filter_preassign() -> Seq<AttributeView> {
    spec_entity_from_definition(CLASS_MAC_BRIDGE_PORT_FILTER_PREASSIGN_DATA, None).unwrap()
}

/// Instances built from a definition are well-formed, whatever the key.
pub(crate) proof fn lemma_defined_entity_wf(class_id: u16, payload: Option<Seq<u8>>, key_class: u16, key_entity: u16)
    requires
        spec_entity_from_definition(class_id, payload) is Some,
        key_class == class_id,
    ensures
        record_wf(RecordView {
            class_id: key_class,
            entity_id: key_entity,
            attributes: spec_entity_from_definition(class_id, payload).unwrap(),
            olt_created: false,
        }),
        record_wf(RecordView {
            class_id: key_class,
            entity_id: key_entity,
            attributes: spec_entity_from_definition(class_id, payload).unwrap(),
            olt_created: true,
        }),
{
    lemma_attribute_definitions_are_wire_safe(class_id);
    let d = spec_managed_entity(class_id).unwrap();
    let defs = d.attributes;
    let a = spec_entity_from_definition(class_id, payload).unwrap();
    assert forall|i: int| 0 <= i < a.len() implies #[trigger] a[i] == spec_attribute_from_definition(defs[i], payload).unwrap() by {}
    assert forall|i: int| 0 <= i < a.len() implies (#[trigger] a[i]).index == defs[i].index by {
        assert(spec_attribute_from_definition(defs[i], payload) is Some);
    }
    assert forall|i: int, j: int| 0 <= i < j < a.len() implies index_lt()(attribute_key()(#[trigger] a[i]), attribute_key()(#[trigger] a[j])) by {
        assert(defs[i].index < defs[j].index);
    }
    assert forall|i: int| 0 <= i < a.len() implies rows_sorted(#[trigger] a[i].rows) by {
        assert(a[i].rows =~= Seq::<RowView>::empty());
    }
    assert forall|i: int| 0 <= i < a.len() implies {
        let x = #[trigger] a[i];
        &&& 1 <= x.index <= 16
        &&& (x.writable && x.table_row_len is Some ==> x.table_row_len.unwrap() >= 8)
        &&& (x.table_row_len is None ==> x.value.len() > 0)
    } by {
        assert(attribute_wire_safe(defs[i]));
        assert(spec_attribute_from_definition(defs[i], payload) is Some);
    }
    super::schema::lemma_state_attributes_are_scalars();
    if class_id == CLASS_ENHANCED_SECURITY_CONTROL {
        lemma_first_index(a, 2, 3);
        lemma_first_index(a, 4, 5);
        lemma_first_index(a, 5, 6);
        lemma_first_index(a, 7, 8);
    }
    assert forall|k: u8| (class_id == CLASS_ONU_DATA && k == 1) || (class_id == CLASS_ENHANCED_SECURITY_CONTROL && (k == 3 || k == 8 || k == 9)) implies value_present(a, k) by {
        super::sorted::lemma_lookup_found(a, k, attribute_key());
        if let Some(x) = attribute_of(a, k) {
            let m = choose|m: int| 0 <= m < a.len() && a[m] == x && x.index == k;
            assert(defs[m].index == k);
            assert(spec_attribute_from_definition(defs[m], payload) is Some);
        }
    }
}

fn attribute_from_definition(d: &AttributeDefinition, payload: Option<&[u8]>) -> (attribute: Option<Attribute>)
    ensures
        match attribute {
            Some(a) => spec_attribute_from_definition(d@, payload_view(payload)) == Some(a@),
            None => spec_attribute_from_definition(d@, payload_view(payload)) is None,
        },
{
    let table_row_len = match d.kind {
        AttributeKind::Scalar { .. } => None,
        AttributeKind::Table { row_length } => Some(row_length),
    };
    let value = match d.kind {
        AttributeKind::Table { .. } => Vec::new(),
        AttributeKind::Scalar { length } => {
            let configured: Option<Vec<u8>> = match (payload, d.create) {
                (Some(p), CreateSource::Required { offset }) => {
                    if offset <= p.len() && length <= p.len() - offset {
                        Some(slice_bytes(p, offset, offset + length))
                    } else {
                        return None;
                    }
                },
                (Some(p), CreateSource::Optional { offset }) => {
                    if offset <= p.len() && length <= p.len() - offset {
                        Some(slice_bytes(p, offset, offset + length))
                    } else {
                        None
                    }
                },
                _ => None,
            };
            match configured {
                Some(v) => v,
                None => if d.default.len() == 0 {
                    zeros(length)
                } else {
                    copy_bytes(d.default)
                },
            }
        },
    };
    let attribute = Attribute::new(d.index, value, d.access == AttributeAccess::ReadWrite, table_row_len, d.upload);
    proof {
        if let AttributeKind::Table { .. } = d.kind {
            assert(attribute@.value =~= Seq::<u8>::empty());
        }
    }
    Some(attribute)
}

/// A new instance of `class_id`, its attributes from the Create contents `payload` where given.
pub fn entity_from_definition(class_id: u16, payload: Option<&[u8]>) -> (entity: Option<ManagedEntity>)
    ensures
        match entity {
            Some(e) => spec_entity_from_definition(class_id, payload_view(payload)) == Some(e@),
            None => spec_entity_from_definition(class_id, payload_view(payload)) is None,
        },
        entity matches Some(e) ==> attributes_wf(e@),
{
    let definition = match managed_entity(class_id) {
        Some(definition) => definition,
        None => return None,
    };
    proof {
        lemma_attribute_definitions_are_wire_safe(class_id);
    }
    let ghost defs = spec_managed_entity(class_id).unwrap().attributes;
    let ghost pv = payload_view(payload);
    let attributes = definition.attributes;
    assert(defs == super::schema::attribute_views(attributes@));
    let mut entity = ManagedEntity::empty();
    let mut i: usize = 0;
    while i < attributes.len()
        invariant
            i <= attributes.len(),
            defs == super::schema::attribute_views(attributes@),
            spec_managed_entity(class_id) is Some,
            defs == spec_managed_entity(class_id).unwrap().attributes,
            pv == payload_view(payload),
            attributes_wire_safe(defs),
            attributes_wf(entity@),
            forall|k: int| 0 <= k < i ==> (#[trigger] spec_attribute_from_definition(defs[k], pv)) is Some,
            entity@ == defs.take(i as int).map_values(|d: AttributeDefinitionView| spec_attribute_from_definition(d, pv).unwrap()),
        decreases attributes.len() - i,
    {
        let d = &attributes[i];
        assert(d@ == defs[i as int]);
        match attribute_from_definition(d, payload) {
            None => {
                assert(spec_attribute_from_definition(defs[i as int], pv) is None);
                assert(!(forall|k: int| 0 <= k < defs.len() ==> (#[trigger] spec_attribute_from_definition(defs[k], pv)) is Some));
                return None;
            },
            Some(a) => {
                proof {
                    assert forall|k: int| 0 <= k < entity@.len() implies (#[trigger] entity@[k]).index < a@.index by {
                        assert(entity@[k].index == defs[k].index);
                        assert(defs[k].index < defs[i as int].index);
                    }
                }
                let ghost before = entity@;
                entity.push_attribute(a);
                proof {
                    let t = defs.take(i + 1).map_values(|d: AttributeDefinitionView| spec_attribute_from_definition(d, pv).unwrap());
                    assert forall|k: int| 0 <= k <= i implies #[trigger] entity@[k] == t[k] by {
                        if k < i {
                            assert(before[k] == defs.take(i as int).map_values(|d: AttributeDefinitionView| spec_attribute_from_definition(d, pv).unwrap())[k]);
                        }
                    }
                    assert(entity@ =~= t);
                }
                i += 1;
            },
        }
    }
    assert(defs.take(attributes.len() as int) =~= defs);
    Some(entity)
}


pub open spec fn result_body(result: u8) -> ResponseBodyView {
    ResponseBodyView::Result { result }
}

/// Create: an OLT-created class builds its instance from the Create contents;
/// an identical repeat succeeds without change.
pub open spec fn spec_create(m: MibView, request: Request) -> (MibView, ResponseBodyView) {
    let class_id = request.class_id;
    let entity_id = request.entity_id;
    if !m.dynamic_classes.contains(class_id) {
        (m, result_body(if m.known_classes.contains(class_id) { RESULT_COMMAND_NOT_SUPPORTED } else { RESULT_UNKNOWN_ME }))
    } else {
        match spec_dynamic_entity(class_id, request.payload@) {
            None => (m, result_body(RESULT_PARAMETER_ERROR)),
            Some(attributes) => match entity_of(m.entities, class_id, entity_id) {
                Some(existing) => (m, result_body(if existing.attributes == attributes { RESULT_SUCCESS } else { RESULT_INSTANCE_EXISTS })),
                None => {
                    let m1 = spec_store(m, class_id, entity_id, attributes, true);
                    let m2 = if class_id == CLASS_MAC_BRIDGE_PORT_CONFIG_DATA {
                        spec_store(m1, CLASS_MAC_BRIDGE_PORT_FILTER_PREASSIGN_DATA, entity_id, spec_filter_preassign(), false)
                    } else {
                        m1
                    };
                    (MibView { entities: spec_increment_mib_sync(m2.entities), ..m2 }, result_body(RESULT_SUCCESS))
                },
            },
        }
    }
}

/// Delete: only OLT-created instances go; a bridge port takes its filter-preassign instance along.
pub open spec fn spec_delete(m: MibView, request: Request) -> (MibView, ResponseBodyView) {
    let class_id = request.class_id;
    let entity_id = request.entity_id;
    match entity_of(m.entities, class_id, entity_id) {
        None => (m, result_body(spec_entity_error(m, class_id))),
        Some(record) => if !record.olt_created {
            (m, result_body(RESULT_COMMAND_NOT_SUPPORTED))
        } else {
            let e1 = entities_remove(m.entities, class_id, entity_id);
            let e2 = if class_id == CLASS_MAC_BRIDGE_PORT_CONFIG_DATA {
                entities_remove(e1, CLASS_MAC_BRIDGE_PORT_FILTER_PREASSIGN_DATA, entity_id)
            } else {
                e1
            };
            (MibView { entities: spec_increment_mib_sync(e2), ..m }, result_body(RESULT_SUCCESS))
        },
    }
}

proof fn lemma_no_payload_builds(d: AttributeDefinitionView)
    ensures
        spec_attribute_from_definition(d, None) is Some,
{
}

/// A registered class can always be instantiated without Create contents.
pub proof fn lemma_entity_defined(class_id: u16)
    requires
        spec_managed_entity(class_id) is Some,
    ensures
        spec_entity_from_definition(class_id, None) is Some,
{
    let d = spec_managed_entity(class_id).unwrap();
    assert forall|k: int| 0 <= k < d.attributes.len() implies (#[trigger] spec_attribute_from_definition(d.attributes[k], None)) is Some by {
        lemma_no_payload_builds(d.attributes[k]);
    }
}

proof fn lemma_filter_preassign_defined()
    ensures
        spec_entity_from_definition(CLASS_MAC_BRIDGE_PORT_FILTER_PREASSIGN_DATA, None) is Some,
{
    reveal(spec_managed_entity);
    let d = spec_managed_entity(CLASS_MAC_BRIDGE_PORT_FILTER_PREASSIGN_DATA).unwrap();
    assert forall|k: int| 0 <= k < d.attributes.len() implies (#[trigger] spec_attribute_from_definition(d.attributes[k], None)) is Some by {
        lemma_no_payload_builds(d.attributes[k]);
    }
}

/// Class IDs are ordered as integers, so a B-tree keeps a set of them.
proof fn lemma_class_ids_ordered()
    ensures
        vstd::laws_cmp::obeys_cmp::<u16>(),
{
    broadcast use vstd::laws_cmp::group_laws_cmp;
}

fn contains_class(classes: &BTreeSet<u16>, class_id: u16) -> (present: bool)
    ensures
        present == classes@.contains(class_id),
{
    proof {
        lemma_class_ids_ordered();
    }
    classes.contains(&class_id)
}

fn add_class(classes: &mut BTreeSet<u16>, class_id: u16)
    ensures
        final(classes)@ == old(classes)@.insert(class_id),
{
    proof {
        lemma_class_ids_ordered();
    }
    classes.insert(class_id);
}

/// A new OLT-created instance of `class_id` from its Create contents; `None`
/// where the class is not OLT-created or the contents lack a required value.
pub fn dynamic_entity(class_id: u16, payload: &[u8]) -> (entity: Option<ManagedEntity>)
    ensures
        match entity {
            Some(e) => spec_dynamic_entity(class_id, payload@) == Some(e@),
            None => spec_dynamic_entity(class_id, payload@) is None,
        },
        entity matches Some(e) ==> attributes_wf(e@),
{
    let definition = match managed_entity(class_id) {
        Some(definition) => definition,
        None => return None,
    };
    if definition.origin == ManagedEntityOrigin::Olt {
        entity_from_definition(class_id, Some(payload))
    } else {
        None
    }
}

fn mac_bridge_port_filter_preassign_entity() -> (entity: ManagedEntity)
    ensures
        entity@ == spec_filter_preassign(),
        attributes_wf(entity@),
{
    proof {
        lemma_filter_preassign_defined();
    }
    entity_from_definition(CLASS_MAC_BRIDGE_PORT_FILTER_PREASSIGN_DATA, None).unwrap()
}

impl Mib {
    fn store(&mut self, class_id: u16, entity_id: u16, entity: ManagedEntity, olt_created: bool)
        requires
            old(self).wf(),
            record_wf(RecordView { class_id, entity_id, attributes: entity@, olt_created }),
        ensures
            final(self).wf(),
            final(self)@ == spec_store(old(self)@, class_id, entity_id, entity@, olt_created),
    {
        let ghost r = RecordView { class_id, entity_id, attributes: entity@, olt_created };
        add_class(&mut self.known_classes, class_id);
        proof {
            lemma_entities_put_wf(self@.entities, r);
        }
        put_record(&mut self.entities, EntityRecord { class_id, entity_id, entity, olt_created });
    }

    /// Stores an ONU-created instance, replacing any instance of the same key.
    pub fn insert(&mut self, class_id: u16, entity_id: u16, entity: ManagedEntity)
        requires
            old(self).wf(),
            record_wf(RecordView { class_id, entity_id, attributes: entity@, olt_created: false }),
        ensures
            final(self).wf(),
            final(self)@ == spec_insert(old(self)@, class_id, entity_id, entity@),
    {
        self.store(class_id, entity_id, entity, false);
    }

    fn entity_error(&self, request: &Request) -> (response: Response)
        ensures
            response@ == spec_answer(request, result_body(spec_entity_error(self@, request.class_id))),
    {
        let result = if contains_class(&self.known_classes, request.class_id) {
            RESULT_UNKNOWN_INSTANCE
        } else {
            RESULT_UNKNOWN_ME
        };
        Response::new(request, result)
    }

    fn handle_create(&mut self, request: &Request) -> (response: Response)
        requires
            old(self).wf(),
        ensures
            final(self).wf(),
            final(self)@ == spec_create(old(self)@, *request).0,
            response@ == spec_answer(request, spec_create(old(self)@, *request).1),
    {
        if !contains_class(&self.dynamic_classes, request.class_id) {
            return if contains_class(&self.known_classes, request.class_id) {
                Response::new(request, RESULT_COMMAND_NOT_SUPPORTED)
            } else {
                Response::new(request, RESULT_UNKNOWN_ME)
            };
        }
        let entity = match dynamic_entity(request.class_id, request.payload.as_slice()) {
            Some(entity) => entity,
            None => return Response::new(request, RESULT_PARAMETER_ERROR),
        };
        if let Some(p) = find_record(&self.entities, request.class_id, request.entity_id) {
            assert(self@.entities[p as int] == self.entities@[p as int]@);
            let result = if self.entities[p].entity.same_as(&entity) {
                RESULT_SUCCESS
            } else {
                RESULT_INSTANCE_EXISTS
            };
            return Response::new(request, result);
        }
        proof {
            assert(spec_managed_entity(request.class_id) is Some);
            lemma_defined_entity_wf(request.class_id, Some(request.payload@), request.class_id, request.entity_id);
        }
        self.store(request.class_id, request.entity_id, entity, true);
        if request.class_id == CLASS_MAC_BRIDGE_PORT_CONFIG_DATA {
            proof {
                lemma_filter_preassign_defined();
                lemma_defined_entity_wf(CLASS_MAC_BRIDGE_PORT_FILTER_PREASSIGN_DATA, None, CLASS_MAC_BRIDGE_PORT_FILTER_PREASSIGN_DATA, request.entity_id);
            }
            self.store(
                CLASS_MAC_BRIDGE_PORT_FILTER_PREASSIGN_DATA,
                request.entity_id,
                mac_bridge_port_filter_preassign_entity(),
                false,
            );
        }
        self.increment_mib_sync();
        Response::new(request, RESULT_SUCCESS)
    }

    fn handle_delete(&mut self, request: &Request) -> (response: Response)
        requires
            old(self).wf(),
        ensures
            final(self).wf(),
            final(self)@ == spec_delete(old(self)@, *request).0,
            response@ == spec_answer(request, spec_delete(old(self)@, *request).1),
    {
        let p = match find_record(&self.entities, request.class_id, request.entity_id) {
            Some(p) => p,
            None => return self.entity_error(request),
        };
        assert(self@.entities[p as int] == self.entities@[p as int]@);
        if !self.entities[p].olt_created {
            return Response::new(request, RESULT_COMMAND_NOT_SUPPORTED);
        }
        proof {
            lemma_entities_remove_wf(self@.entities, request.class_id, request.entity_id);
        }
        remove_record(&mut self.entities, request.class_id, request.entity_id);
        if request.class_id == CLASS_MAC_BRIDGE_PORT_CONFIG_DATA {
            proof {
                lemma_entities_remove_wf(self@.entities, CLASS_MAC_BRIDGE_PORT_FILTER_PREASSIGN_DATA, request.entity_id);
            }
            remove_record(&mut self.entities, CLASS_MAC_BRIDGE_PORT_FILTER_PREASSIGN_DATA, request.entity_id);
        }
        self.increment_mib_sync();
        Response::new(request, RESULT_SUCCESS)
    }
}


/// Exactly one bit of `mask` is set.
pub open spec fn spec_single_bit(mask: u16) -> bool {
    mask != 0 && mask & ((mask - 1) as u16) == 0
}

fn single_bit(mask: u16) -> (single: bool)
    ensures
        single == spec_single_bit(mask),
{
    mask != 0 && mask & (mask - 1) == 0
}

/// The row bytes of a table in key order, one after another.
pub open spec fn rows_concat(rows: Seq<RowView>) -> Seq<u8>
    decreases rows.len(),
{
    if rows.len() == 0 {
        Seq::empty()
    } else {
        rows_concat(rows.drop_last()) + rows.last().1
    }
}

fn concat_rows(rows: &Vec<TableRow>) -> (bytes: Vec<u8>)
    ensures
        bytes@ == rows_concat(super::entity::rows_view(rows@)),
{
    let ghost v = super::entity::rows_view(rows@);
    let mut bytes: Vec<u8> = Vec::new();
    let mut i: usize = 0;
    while i < rows.len()
        invariant
            i <= rows.len(),
            v == super::entity::rows_view(rows@),
            bytes@ == rows_concat(v.take(i as int)),
        decreases rows.len() - i,
    {
        append_bytes(&mut bytes, rows[i].value.as_slice());
        proof {
            let t = v.take(i + 1);
            assert(t.drop_last() =~= v.take(i as int));
            assert(t.last() == v[i as int]);
        }
        i += 1;
    }
    assert(v.take(rows.len() as int) =~= v);
    bytes
}

pub ghost enum GetScan {
    Fail { result: u8 },
    Done { mask: u16, values: Seq<u8>, table: Option<TableSnapshotView> },
}

/// Get over attributes `index..=16`: collects the selected values in index order; a selected
/// table returns its length and becomes the snapshot Get Next reads.
pub open spec fn spec_get_scan(
    attributes: Seq<AttributeView>,
    request: Request,
    index: int,
    mask: u16,
    values: Seq<u8>,
    table: Option<TableSnapshotView>,
) -> GetScan
    decreases 17 - index,
{
    if !(1 <= index <= 16) {
        GetScan::Done { mask, values, table }
    } else {
        let bit = spec_attribute_bit(index as u8).unwrap();
        if request.attribute_mask & bit == 0 {
            spec_get_scan(attributes, request, index + 1, mask, values, table)
        } else {
            match attribute_of(attributes, index as u8) {
                None => GetScan::Fail { result: RESULT_ATTRIBUTE_FAILED },
                Some(a) => if a.table_row_len is Some {
                    if !spec_single_bit(request.attribute_mask) {
                        GetScan::Fail { result: RESULT_PARAMETER_ERROR }
                    } else {
                        let bytes = rows_concat(a.rows);
                        spec_get_scan(
                            attributes,
                            request,
                            index + 1,
                            mask | bit,
                            values + be32(bytes.len() as u32),
                            Some(TableSnapshotView {
                                class_id: request.class_id,
                                entity_id: request.entity_id,
                                attribute_mask: bit,
                                bytes,
                            }),
                        )
                    }
                } else if values.len() + a.value.len() > spec_get_value_capacity(request.encoding) {
                    GetScan::Fail { result: RESULT_PARAMETER_ERROR }
                } else {
                    spec_get_scan(attributes, request, index + 1, mask | bit, values + a.value, table)
                },
            }
        }
    }
}

/// Get (and Get Current Data).
pub open spec fn spec_get(m: MibView, request: Request) -> (MibView, ResponseBodyView) {
    match entity_of(m.entities, request.class_id, request.entity_id) {
        None => (m, result_body(spec_entity_error(m, request.class_id))),
        Some(record) => if request.attribute_mask == 0 {
            (m, result_body(RESULT_PARAMETER_ERROR))
        } else {
            match spec_get_scan(record.attributes, request, 1, 0, Seq::empty(), None) {
                GetScan::Fail { result } => (m, result_body(result)),
                GetScan::Done { mask, values, table } => (
                    MibView { table_snapshot: table, ..m },
                    ResponseBodyView::GetSuccess { attribute_mask: mask, values },
                ),
            }
        },
    }
}

/// The Get Next sequence number: the first two content bytes, big-endian.
pub open spec fn spec_get_next_sequence(request: Request) -> int {
    request.content@[0] as int * 256 + request.content@[1] as int
}

pub open spec fn snapshot_matches(s: TableSnapshotView, request: Request) -> bool {
    s.class_id == request.class_id && s.entity_id == request.entity_id && s.attribute_mask == request.attribute_mask
}

/// Get Next: returns the numbered chunk of the table snapshot the last Get took.
pub open spec fn spec_get_next(m: MibView, request: Request) -> (MibView, ResponseBodyView) {
    match m.table_snapshot {
        None => (m, result_body(RESULT_PARAMETER_ERROR)),
        Some(s) => if !snapshot_matches(s, request) {
            (m, result_body(RESULT_PARAMETER_ERROR))
        } else {
            let capacity = spec_get_next_value_capacity(request.encoding) as int;
            let start = spec_get_next_sequence(request) * capacity;
            if start >= s.bytes.len() && s.bytes.len() != 0 {
                (m, result_body(RESULT_PARAMETER_ERROR))
            } else {
                let end = if start + capacity < s.bytes.len() { start + capacity } else { s.bytes.len() as int };
                (m, ResponseBodyView::GetNextSuccess { attribute_mask: s.attribute_mask, values: s.bytes.subrange(start, end) })
            }
        },
    }
}

/// The Get Next inputs the handling cannot answer: contents without a
/// sequence number, or a chunk past the start of an empty table.
pub open spec fn spec_get_next_fails(m: MibView, request: Request) -> bool {
    &&& m.table_snapshot matches Some(s)
    &&& snapshot_matches(s, request)
    &&& (request.content.len() < 2 || (s.bytes.len() == 0
        && spec_get_next_sequence(request) * spec_get_next_value_capacity(request.encoding) > 0))
}

/// The upload records of one instance: its uploadable scalars in index order,
/// split where a record would exceed the upload capacity; values above the
/// capacity are left out.
pub open spec fn spec_upload_entity(
    class_id: u16,
    entity_id: u16,
    attributes: Seq<AttributeView>,
    i: int,
    mask: u16,
    values: Seq<u8>,
    records: Seq<UploadRecordView>,
) -> Seq<UploadRecordView>
    decreases attributes.len() - i,
{
    if i >= attributes.len() || i < 0 {
        if mask != 0 {
            records.push(UploadRecordView { class_id, entity_id, attribute_mask: mask, values })
        } else {
            records
        }
    } else {
        let a = attributes[i];
        if !a.upload || a.table_row_len is Some {
            spec_upload_entity(class_id, entity_id, attributes, i + 1, mask, values, records)
        } else {
            let bit = spec_attribute_bit(a.index).unwrap();
            let split = values.len() != 0 && values.len() + a.value.len() > UPLOAD_RECORD_CAPACITY;
            let mask1: u16 = if split { 0 } else { mask };
            let values1 = if split { Seq::empty() } else { values };
            let records1 = if split {
                records.push(UploadRecordView { class_id, entity_id, attribute_mask: mask, values })
            } else {
                records
            };
            if a.value.len() <= UPLOAD_RECORD_CAPACITY {
                spec_upload_entity(class_id, entity_id, attributes, i + 1, mask1 | bit, values1 + a.value, records1)
            } else {
                spec_upload_entity(class_id, entity_id, attributes, i + 1, mask1, values1, records1)
            }
        }
    }
}

/// The MIB Upload records of instances `k..`, after `records`; the LOID
/// authentication instance is read with Get only.
pub open spec fn spec_upload_records(entities: Seq<RecordView>, k: int, records: Seq<UploadRecordView>) -> Seq<UploadRecordView>
    decreases entities.len() - k,
{
    if k >= entities.len() || k < 0 {
        records
    } else {
        let r = entities[k];
        if r.class_id == CLASS_CTC_LOID_AUTH {
            spec_upload_records(entities, k + 1, records)
        } else {
            spec_upload_records(
                entities,
                k + 1,
                spec_upload_entity(r.class_id, r.entity_id, r.attributes, 0, 0, Seq::empty(), records),
            )
        }
    }
}

/// MIB Upload: takes the upload snapshot and answers with its record count.
pub open spec fn spec_mib_upload(m: MibView, request: Request) -> (MibView, ResponseBodyView) {
    if request.class_id != CLASS_ONU_DATA || request.entity_id != 0 {
        (m, result_body(spec_entity_error(m, request.class_id)))
    } else {
        let records = spec_upload_records(m.entities, 0, Seq::empty());
        (MibView { upload_snapshot: records, ..m }, ResponseBodyView::MibUpload { commands: records.len() as u16 })
    }
}

/// MIB Upload Next: the numbered snapshot record, or an empty record past the end.
pub open spec fn spec_mib_upload_next(m: MibView, request: Request) -> (MibView, ResponseBodyView) {
    if request.class_id != CLASS_ONU_DATA || request.entity_id != 0 {
        (m, result_body(spec_entity_error(m, request.class_id)))
    } else {
        let sequence = request.attribute_mask as int;
        if sequence < m.upload_snapshot.len() {
            let r = m.upload_snapshot[sequence];
            (m, ResponseBodyView::MibUploadNext { class_id: r.class_id, entity_id: r.entity_id, attribute_mask: r.attribute_mask, values: r.values })
        } else {
            (m, ResponseBodyView::MibUploadNext { class_id: 0, entity_id: 0, attribute_mask: 0, values: Seq::empty() })
        }
    }
}

/// MIB Reset: back to the autonomous instances; the LOID authentication instance keeps its attributes.
pub open spec fn spec_mib_reset(m: MibView, request: Request) -> (MibView, ResponseBodyView) {
    if request.class_id != CLASS_ONU_DATA || request.entity_id != 0 {
        (m, result_body(spec_entity_error(m, request.class_id)))
    } else {
        let entities = match entity_of(m.entities, CLASS_CTC_LOID_AUTH, 0) {
            Some(r) => entities_put(m.autonomous_defaults, RecordView { olt_created: false, ..r }),
            None => m.autonomous_defaults,
        };
        (
            MibView {
                entities,
                table_snapshot: None,
                upload_snapshot: Seq::empty(),
                pending_master_session_key: None,
                attribute_value_changes: Seq::empty(),
                ..m
            },
            result_body(RESULT_SUCCESS),
        )
    }
}

/// Synchronize Time: accepted on ONU-G instance 0.
pub open spec fn spec_synchronize_time(m: MibView, request: Request) -> (MibView, ResponseBodyView) {
    if request.class_id != CLASS_ONU_G || request.entity_id != 0 {
        (m, result_body(spec_entity_error(m, request.class_id)))
    } else {
        (m, ResponseBodyView::SynchronizeTimeSuccess)
    }
}

fn copy_records(records: &Vec<EntityRecord>) -> (copy: Vec<EntityRecord>)
    ensures
        record_views(copy@) == record_views(records@),
{
    let mut copy: Vec<EntityRecord> = Vec::with_capacity(records.len());
    let mut i: usize = 0;
    while i < records.len()
        invariant
            i <= records.len(),
            copy.len() == i,
            record_views(copy@) == record_views(records@).take(i as int),
        decreases records.len() - i,
    {
        let r = &records[i];
        let ghost before = copy@;
        copy.push(EntityRecord { class_id: r.class_id, entity_id: r.entity_id, entity: r.entity.duplicate(), olt_created: r.olt_created });
        assert forall|k: int| 0 <= k <= i implies #[trigger] record_views(copy@)[k] == record_views(records@).take(i + 1)[k] by {
            if k < i {
                assert(record_views(before)[k] == record_views(records@).take(i as int)[k]);
            }
        }
        assert(record_views(copy@) =~= record_views(records@).take(i + 1));
        i += 1;
    }
    assert(record_views(records@).take(records.len() as int) =~= record_views(records@));
    copy
}

fn copy_changes(changes: &Vec<AttributeValueChange>) -> (copy: Vec<AttributeValueChange>)
    ensures
        avc_views(copy@) == avc_views(changes@),
{
    let mut copy: Vec<AttributeValueChange> = Vec::with_capacity(changes.len());
    let mut i: usize = 0;
    while i < changes.len()
        invariant
            i <= changes.len(),
            copy.len() == i,
            forall|k: int| 0 <= k < i ==> #[trigger] copy@[k]@ == changes@[k]@,
        decreases changes.len() - i,
    {
        let c = &changes[i];
        copy.push(AttributeValueChange {
            class_id: c.class_id,
            entity_id: c.entity_id,
            attribute_mask: c.attribute_mask,
            value: copy_bytes(c.value.as_slice()),
        });
        i += 1;
    }
    assert(avc_views(copy@) =~= avc_views(changes@));
    copy
}

impl Mib {
    fn handle_get(&mut self, request: &Request) -> (response: Response)
        requires
            old(self).wf(),
        ensures
            final(self).wf(),
            final(self)@ == spec_get(old(self)@, *request).0,
            response@ == spec_answer(request, spec_get(old(self)@, *request).1),
    {
        let p = match find_record(&self.entities, request.class_id, request.entity_id) {
            Some(p) => p,
            None => return self.entity_error(request),
        };
        let ghost record = self@.entities[p as int];
        assert(record == self.entities@[p as int]@);
        if request.attribute_mask == 0 {
            return Response::new(request, RESULT_PARAMETER_ERROR);
        }
        let mut returned_mask: u16 = 0;
        let mut values: Vec<u8> = Vec::new();
        let mut table: Option<TableSnapshot> = None;
        let mut index: u8 = 1;
        let capacity = request.get_value_capacity();
        while index <= 16
            invariant
                1 <= index <= 17,
                self == old(self),
                self.wf(),
                request.attribute_mask != 0,
                entity_of(self@.entities, request.class_id, request.entity_id) == Some(record),
                p < self.entities.len(),
                record == self.entities@[p as int]@,
                capacity == spec_get_value_capacity(request.encoding),
                spec_get_scan(record.attributes, *request, 1, 0, Seq::empty(), None)
                    == spec_get_scan(record.attributes, *request, index as int, returned_mask, values@, snapshot_view(table)),
            decreases 17 - index,
        {
            let bit = attribute_bit(index).unwrap();
            if request.attribute_mask & bit != 0 {
                let entity = &self.entities[p].entity;
                match entity.find(index) {
                    None => return Response::new(request, RESULT_ATTRIBUTE_FAILED),
                    Some(ai) => {
                        let attribute = entity.attribute_at(ai);
                        if attribute.table_row_len().is_some() {
                            if !single_bit(request.attribute_mask) {
                                return Response::new(request, RESULT_PARAMETER_ERROR);
                            }
                            let bytes = concat_rows(attribute.rows());
                            let length = u32_bytes(#[verifier::truncate] (bytes.len() as u32));
                            append_bytes(&mut values, length.as_slice());
                            table = Some(TableSnapshot {
                                class_id: request.class_id,
                                entity_id: request.entity_id,
                                attribute_mask: bit,
                                bytes,
                            });
                            returned_mask = returned_mask | bit;
                        } else {
                            let length = attribute.value().len();
                            if length > capacity || values.len() > capacity - length {
                                return Response::new(request, RESULT_PARAMETER_ERROR);
                            }
                            returned_mask = returned_mask | bit;
                            append_bytes(&mut values, attribute.value().as_slice());
                        }
                    },
                }
            }
            index += 1;
        }
        self.table_snapshot = table;
        Response::get_success(request, returned_mask, &values)
    }
}


impl Mib {
    fn handle_get_next(&self, request: &Request) -> (response: Response)
        requires
            !spec_get_next_fails(self@, *request),
        ensures
            spec_get_next(self@, *request).0 == self@,
            response@ == spec_answer(request, spec_get_next(self@, *request).1),
    {
        let snapshot = match &self.table_snapshot {
            Some(snapshot) => snapshot,
            None => return Response::new(request, RESULT_PARAMETER_ERROR),
        };
        assert(self@.table_snapshot == Some(snapshot@));
        if snapshot.class_id != request.class_id || snapshot.entity_id != request.entity_id
            || snapshot.attribute_mask != request.attribute_mask
        {
            return Response::new(request, RESULT_PARAMETER_ERROR);
        }
        let sequence = (request.content[0] as usize) * 256 + (request.content[1] as usize);
        let capacity = request.get_next_value_capacity();
        assert(sequence <= 65535);
        assert(sequence * capacity <= 65535 * 1963) by (nonlinear_arith)
            requires
                sequence <= 65535,
                capacity <= 1963;
        let start = sequence * capacity;
        let length = snapshot.bytes.len();
        if start >= length && length != 0 {
            return Response::new(request, RESULT_PARAMETER_ERROR);
        }
        let end = if start + capacity < length { start + capacity } else { length };
        Response::get_next_success(request, snapshot.attribute_mask, slice_bytes(snapshot.bytes.as_slice(), start, end))
    }

    fn handle_mib_upload(&mut self, request: &Request) -> (response: Response)
        requires
            old(self).wf(),
        ensures
            final(self).wf(),
            final(self)@ == spec_mib_upload(old(self)@, *request).0,
            response@ == spec_answer(request, spec_mib_upload(old(self)@, *request).1),
    {
        if request.class_id != CLASS_ONU_DATA || request.entity_id != 0 {
            return self.entity_error(request);
        }
        self.rebuild_upload_snapshot();
        Response::mib_upload(request, #[verifier::truncate] (self.upload_snapshot.len() as u16))
    }

    fn rebuild_upload_snapshot(&mut self)
        requires
            old(self).wf(),
        ensures
            final(self).wf(),
            final(self)@ == (MibView { upload_snapshot: spec_upload_records(old(self)@.entities, 0, Seq::empty()), ..old(self)@ }),
            final(self).upload_snapshot.len() == final(self)@.upload_snapshot.len(),
    {
        let mut records: Vec<UploadRecord> = Vec::new();
        let mut k: usize = 0;
        let ghost entities = self@.entities;
        assert(upload_views(records@) =~= Seq::<UploadRecordView>::empty());
        while k < self.entities.len()
            invariant
                k <= self.entities.len(),
                self == old(self),
                self.wf(),
                entities == self@.entities,
                spec_upload_records(entities, 0, Seq::empty()) == spec_upload_records(entities, k as int, upload_views(records@)),
            decreases self.entities.len() - k,
        {
            let record = &self.entities[k];
            assert(entities[k as int] == record@);
            if record.class_id != CLASS_CTC_LOID_AUTH {
                let entity = &record.entity;
                let ghost attributes = entity@;
                let ghost start = upload_views(records@);
                proof {
                    assert(record_wf(entities[k as int]));
                }
                let mut mask: u16 = 0;
                let mut values: Vec<u8> = Vec::new();
                let mut i: usize = 0;
                let count = entity.attributes().len();
                assert(count == attributes.len());
                while i < count
                    invariant
                        i <= count,
                        count == attributes.len(),
                        attributes == entity@,
                        record_wf(RecordView { class_id: record.class_id, entity_id: record.entity_id, attributes, olt_created: record.olt_created }),
                        spec_upload_entity(record.class_id, record.entity_id, attributes, 0, 0, Seq::empty(), start)
                            == spec_upload_entity(record.class_id, record.entity_id, attributes, i as int, mask, values@, upload_views(records@)),
                    decreases count - i,
                {
                    let attribute = entity.attribute_at(i);
                    if attribute.upload() && attribute.table_row_len().is_none() {
                        assert(1 <= attributes[i as int].index <= 16);
                        let bit = attribute_bit(attribute.index()).unwrap();
                        let length = attribute.value().len();
                        if values.len() != 0 && (length > UPLOAD_RECORD_CAPACITY || values.len() > UPLOAD_RECORD_CAPACITY - length) {
                            let ghost before = records@;
                            records.push(UploadRecord { class_id: record.class_id, entity_id: record.entity_id, attribute_mask: mask, values });
                            assert(upload_views(records@) =~= upload_views(before).push(UploadRecordView {
                                class_id: record.class_id,
                                entity_id: record.entity_id,
                                attribute_mask: mask,
                                values: values@,
                            }));
                            mask = 0;
                            values = Vec::new();
                            assert(values@ =~= Seq::<u8>::empty());
                        }
                        if length <= UPLOAD_RECORD_CAPACITY {
                            mask = mask | bit;
                            append_bytes(&mut values, attribute.value().as_slice());
                        }
                    }
                    i += 1;
                }
                if mask != 0 {
                    let ghost before = records@;
                    records.push(UploadRecord { class_id: record.class_id, entity_id: record.entity_id, attribute_mask: mask, values });
                    assert(upload_views(records@) =~= upload_views(before).push(UploadRecordView {
                        class_id: record.class_id,
                        entity_id: record.entity_id,
                        attribute_mask: mask,
                        values: values@,
                    }));
                }
            }
            k += 1;
        }
        self.upload_snapshot = records;
    }

    fn handle_mib_upload_next(&self, request: &Request) -> (response: Response)
        ensures
            spec_mib_upload_next(self@, *request).0 == self@,
            response@ == spec_answer(request, spec_mib_upload_next(self@, *request).1),
    {
        if request.class_id != CLASS_ONU_DATA || request.entity_id != 0 {
            return self.entity_error(request);
        }
        let sequence = request.attribute_mask as usize;
        assert(self.upload_snapshot.len() == self@.upload_snapshot.len());
        if sequence < self.upload_snapshot.len() {
            let record = &self.upload_snapshot[sequence];
            assert(self@.upload_snapshot[sequence as int] == record@);
            Response::mib_upload_next(request, record.class_id, record.entity_id, record.attribute_mask, copy_bytes(record.values.as_slice()))
        } else {
            let empty: Vec<u8> = Vec::new();
            assert(empty@ =~= Seq::<u8>::empty());
            Response::mib_upload_next(request, 0, 0, 0, empty)
        }
    }

    fn handle_mib_reset(&mut self, request: &Request) -> (response: Response)
        requires
            old(self).wf(),
        ensures
            final(self).wf(),
            final(self)@ == spec_mib_reset(old(self)@, *request).0,
            response@ == spec_answer(request, spec_mib_reset(old(self)@, *request).1),
    {
        if request.class_id != CLASS_ONU_DATA || request.entity_id != 0 {
            return self.entity_error(request);
        }
        let loid = match find_record(&self.entities, CLASS_CTC_LOID_AUTH, 0) {
            Some(p) => {
                let r = &self.entities[p];
                assert(self@.entities[p as int] == r@);
                Some(EntityRecord { class_id: r.class_id, entity_id: r.entity_id, entity: r.entity.duplicate(), olt_created: false })
            },
            None => None,
        };
        self.entities = copy_records(&self.autonomous_defaults);
        if let Some(record) = loid {
            proof {
                let ghost p = choose|p: int| 0 <= p < old(self)@.entities.len() && old(self)@.entities[p] == entity_of(old(self)@.entities, CLASS_CTC_LOID_AUTH, 0).unwrap();
                super::sorted::lemma_lookup_found(old(self)@.entities, (CLASS_CTC_LOID_AUTH, 0u16), record_key());
                let q = choose|m: int| 0 <= m < old(self)@.entities.len() && old(self)@.entities[m] == entity_of(old(self)@.entities, CLASS_CTC_LOID_AUTH, 0).unwrap() && record_key()(old(self)@.entities[m]) == (CLASS_CTC_LOID_AUTH, 0u16);
                assert(record_wf(old(self)@.entities[q]));
                assert(record_wf(record@));
                lemma_entities_put_wf(self@.entities, record@);
            }
            put_record(&mut self.entities, record);
        }
        self.table_snapshot = None;
        self.upload_snapshot.clear();
        self.pending_master_session_key = None;
        self.attribute_value_changes.clear();
        proof {
            assert(self@.upload_snapshot =~= Seq::<UploadRecordView>::empty());
            assert(self@.attribute_value_changes =~= Seq::<AttributeValueChangeView>::empty());
        }
        Response::new(request, RESULT_SUCCESS)
    }

    fn handle_synchronize_time(&self, request: &Request) -> (response: Response)
        ensures
            spec_synchronize_time(self@, *request).0 == self@,
            response@ == spec_answer(request, spec_synchronize_time(self@, *request).1),
    {
        if request.class_id != CLASS_ONU_G || request.entity_id != 0 {
            return self.entity_error(request);
        }
        Response::synchronize_time_success(request)
    }
}


/// The attribute index whose mask bit is `mask`, searching from `i`; 17 where none is.
pub open spec fn spec_mask_index_from(mask: u16, i: int) -> int
    decreases 17 - i,
{
    if !(1 <= i <= 16) {
        17
    } else if spec_attribute_bit(i as u8) == Some(mask) {
        i
    } else {
        spec_mask_index_from(mask, i + 1)
    }
}

fn mask_index(mask: u16) -> (index: u8)
    ensures
        index as int == spec_mask_index_from(mask, 1),
        1 <= index <= 17,
{
    let mut i: u8 = 1;
    while i <= 16
        invariant
            1 <= i <= 17,
            spec_mask_index_from(mask, 1) == spec_mask_index_from(mask, i as int),
        decreases 17 - i,
    {
        if attribute_bit(i) == Some(mask) {
            return i;
        }
        i += 1;
    }
    17
}

/// Every byte after the eight-byte row key is 0xff: the row deletes its key.
pub open spec fn row_deletes(row: Seq<u8>) -> bool {
    forall|k: int| 8 <= k < row.len() ==> row[k] == 0xff
}

/// A table write keyed by its first eight bytes: it deletes its key or puts the row.
pub open spec fn spec_apply_row(rows: Seq<RowView>, row: Seq<u8>) -> Seq<RowView> {
    if row_deletes(row) {
        rows_remove(rows, row.take(8))
    } else {
        rows_insert(rows, row.take(8), row)
    }
}

/// The first `n` rows of `content` written in order.
pub open spec fn spec_apply_rows(rows: Seq<RowView>, content: Seq<u8>, row_len: nat, n: nat) -> Seq<RowView>
    decreases n,
{
    if n == 0 {
        rows
    } else {
        let previous = spec_apply_rows(rows, content, row_len, (n - 1) as nat);
        spec_apply_row(previous, content.subrange(((n - 1) * row_len) as int, (n * row_len) as int))
    }
}

pub open spec fn with_rows(rows: Seq<RowView>) -> spec_fn(AttributeView) -> AttributeView {
    |a: AttributeView| AttributeView { rows, ..a }
}

pub open spec fn with_attributes_updated(index: u8, f: spec_fn(AttributeView) -> AttributeView) -> spec_fn(RecordView) -> RecordView {
    |r: RecordView| RecordView { attributes: update_attribute(r.attributes, index, f), ..r }
}

/// Set Table: writes whole rows of one writable table attribute.
pub open spec fn spec_set_table(m: MibView, request: Request) -> (MibView, ResponseBodyView) {
    match entity_of(m.entities, request.class_id, request.entity_id) {
        None => (m, result_body(spec_entity_error(m, request.class_id))),
        Some(record) => if !spec_single_bit(request.attribute_mask) {
            (m, result_body(RESULT_PARAMETER_ERROR))
        } else {
            let index = spec_mask_index_from(request.attribute_mask, 1) as u8;
            match attribute_of(record.attributes, index) {
                None => (m, result_body(RESULT_ATTRIBUTE_FAILED)),
                Some(a) => match a.table_row_len {
                    None => (m, result_body(RESULT_PARAMETER_ERROR)),
                    Some(row_len) => if !a.writable || row_len < 8 || request.content.len() == 0
                        || request.content.len() % row_len != 0 {
                        (m, result_body(RESULT_PARAMETER_ERROR))
                    } else {
                        let rows = spec_apply_rows(a.rows, request.content@, row_len as nat, (request.content.len() / row_len) as nat);
                        let entities = update_entity(
                            m.entities,
                            request.class_id,
                            request.entity_id,
                            with_attributes_updated(index, with_rows(rows)),
                        );
                        (MibView { entities: spec_increment_mib_sync(entities), ..m }, ResponseBodyView::SetSuccess)
                    },
                },
            }
        },
    }
}

fn row_is_delete(row: &[u8]) -> (deletes: bool)
    ensures
        deletes == row_deletes(row@),
{
    let mut k: usize = 8;
    while k < row.len()
        invariant
            8 <= k || row.len() <= k,
            forall|j: int| 8 <= j < k && j < row.len() ==> row@[j] == 0xff,
        decreases row.len() - k,
    {
        if row[k] != 0xff {
            return false;
        }
        k += 1;
    }
    true
}

/// Writes one table row to an attribute.
fn apply_row(attribute: &mut Attribute, row: &[u8])
    requires
        rows_sorted(old(attribute)@.rows),
        row@.len() >= 8,
    ensures
        final(attribute)@ == (AttributeView { rows: spec_apply_row(old(attribute)@.rows, row@), ..old(attribute)@ }),
        rows_sorted(final(attribute)@.rows),
{
    let key = slice_bytes(row, 0, 8);
    assert(key@ =~= row@.take(8));
    if row_is_delete(row) {
        attribute.delete_row(key.as_slice());
    } else {
        attribute.put_row(key, copy_bytes(row));
    }
}

proof fn lemma_row_bounds(i: nat, n: nat, row_len: nat)
    requires
        i < n,
    ensures
        (i + 1) * row_len <= n * row_len,
        i * row_len + row_len == (i + 1) * row_len,
{
    assert((i + 1) * row_len <= n * row_len) by (nonlinear_arith)
        requires i < n;
    assert(i * row_len + row_len == (i + 1) * row_len) by (nonlinear_arith);
}

impl Mib {
    fn handle_set_table(&mut self, request: &Request) -> (response: Response)
        requires
            old(self).wf(),
        ensures
            final(self).wf(),
            final(self)@ == spec_set_table(old(self)@, *request).0,
            response@ == spec_answer(request, spec_set_table(old(self)@, *request).1),
    {
        let p = match find_record(&self.entities, request.class_id, request.entity_id) {
            Some(p) => p,
            None => return self.entity_error(request),
        };
        let ghost record = self@.entities[p as int];
        assert(record == self.entities@[p as int]@);
        if !single_bit(request.attribute_mask) {
            return Response::new(request, RESULT_PARAMETER_ERROR);
        }
        let index = mask_index(request.attribute_mask);
        let ai = match self.entities[p].entity.find(index) {
            Some(ai) => ai,
            None => return Response::new(request, RESULT_ATTRIBUTE_FAILED),
        };
        let current = self.entities[p].entity.attribute_at(ai);
        let row_len = match current.table_row_len() {
            Some(row_len) => row_len,
            None => return Response::new(request, RESULT_PARAMETER_ERROR),
        };
        if !current.writable() || row_len < 8 || request.content.len() == 0 || request.content.len() % row_len != 0 {
            return Response::new(request, RESULT_PARAMETER_ERROR);
        }
        let ghost a = record.attributes[ai as int];
        assert(record_wf(record));
        assert(rows_sorted(a.rows));
        let mut attribute = current.duplicate();
        let n = request.content.len() / row_len;
        let mut i: usize = 0;
        proof {
            assert(n * row_len == request.content.len()) by (nonlinear_arith)
                requires n == request.content.len() / row_len, request.content.len() % row_len == 0, row_len > 0;
        }
        while i < n
            invariant
                i <= n,
                n * row_len == request.content@.len(),
                row_len >= 8,
                attribute@ == (AttributeView { rows: spec_apply_rows(a.rows, request.content@, row_len as nat, i as nat), ..a }),
                rows_sorted(attribute@.rows),
            decreases n - i,
        {
            proof {
                lemma_row_bounds(i as nat, n as nat, row_len as nat);
                assert((i as int) * (row_len as int) + (row_len as int) <= request.content.len());
            }
            let row = slice_bytes(request.content.as_slice(), i * row_len, i * row_len + row_len);
            apply_row(&mut attribute, row.as_slice());
            i += 1;
        }
        proof {
            let ghost f = with_rows(attribute@.rows);
            assert(attribute@ == f(a));
            lemma_update_attribute_at(record.attributes, ai as int, f);
            lemma_update_entity_at(self@.entities, p as int, with_attributes_updated(index, f));
            lemma_record_attribute_wf(record, ai as int, attribute@);
            lemma_entities_update_wf(self@.entities, p as int, RecordView { attributes: record.attributes.update(ai as int, attribute@), ..record });
        }
        self.replace_attribute(p, ai, attribute);
        self.increment_mib_sync();
        Response::set_success(request)
    }
}

pub ghost enum SetScan {
    Fail { result: u8 },
    Done { updates: Seq<SetUpdateView> },
}

/// Set over attributes `index..=16`: each selected attribute must be present and
/// writable and takes its length of contents (a whole row for a table, which
/// must then be the only attribute selected); every check precedes any write.
pub open spec fn spec_set_scan(
    attributes: Seq<AttributeView>,
    request: Request,
    index: int,
    cursor: int,
    updates: Seq<SetUpdateView>,
) -> SetScan
    decreases 17 - index,
{
    if !(1 <= index <= 16) {
        SetScan::Done { updates }
    } else if request.attribute_mask & spec_attribute_bit(index as u8).unwrap() == 0 {
        spec_set_scan(attributes, request, index + 1, cursor, updates)
    } else {
        match attribute_of(attributes, index as u8) {
            None => SetScan::Fail { result: RESULT_ATTRIBUTE_FAILED },
            Some(a) => if !a.writable {
                SetScan::Fail { result: RESULT_ATTRIBUTE_FAILED }
            } else {
                let length = match a.table_row_len {
                    Some(row_len) => row_len as int,
                    None => a.value.len() as int,
                };
                if a.table_row_len is Some && !spec_single_bit(request.attribute_mask) {
                    SetScan::Fail { result: RESULT_PARAMETER_ERROR }
                } else if cursor + length > request.content@.len() {
                    SetScan::Fail { result: RESULT_PARAMETER_ERROR }
                } else {
                    spec_set_scan(
                        attributes,
                        request,
                        index + 1,
                        cursor + length,
                        updates.push(SetUpdateView {
                            index: index as u8,
                            value: request.content@.subrange(cursor, cursor + length),
                            is_table: a.table_row_len is Some,
                        }),
                    )
                }
            },
        }
    }
}

/// One ordinary Set write: a scalar takes the value, a table row is put or deleted by its key.
pub open spec fn spec_apply_write(attributes: Seq<AttributeView>, u: SetUpdateView) -> Seq<AttributeView> {
    match attribute_of(attributes, u.index) {
        None => attributes,
        Some(a) => attributes_replace(
            attributes,
            if u.is_table { AttributeView { rows: spec_apply_row(a.rows, u.value), ..a } } else { AttributeView { value: u.value, ..a } },
        ),
    }
}

pub open spec fn spec_apply_writes(attributes: Seq<AttributeView>, updates: Seq<SetUpdateView>) -> Seq<AttributeView>
    decreases updates.len(),
{
    if updates.len() == 0 {
        attributes
    } else {
        spec_apply_write(spec_apply_writes(attributes, updates.drop_last()), updates.last())
    }
}

pub open spec fn with_attributes(attributes: Seq<AttributeView>) -> spec_fn(RecordView) -> RecordView {
    |r: RecordView| RecordView { attributes, ..r }
}

/// The arguments of one `onu_random_challenge` call.
pub ghost struct ChallengeCall {
    pub olt_challenge: Seq<u8>,
    pub random: Seq<u8>,
}

/// The arguments of one `authentication_result` call.
pub ghost struct ResultCall {
    pub olt_challenges: Seq<Seq<u8>>,
    pub onu_challenges: Seq<Seq<u8>>,
    pub serial: Seq<u8>,
    pub onu_result: bool,
}

/// The arguments of one `master_session_key_name` or `master_session_key` call.
pub ghost struct KeyCall {
    pub olt_challenges: Seq<Seq<u8>>,
    pub onu_challenges: Seq<Seq<u8>>,
}

/// What the session crypto was handed and returned in a Set's handshake
/// step 1: the random blocks drawn, the challenge calls made with them, the
/// ONU challenges they gave, and the ONU authentication result.
pub ghost struct Step1Outcome {
    pub randoms: Seq<Seq<u8>>,
    pub challenge_calls: Seq<ChallengeCall>,
    pub onu_challenges: Seq<Seq<u8>>,
    pub result_call: ResultCall,
    pub result: Seq<u8>,
}

/// What the session crypto was handed and returned in handshake step 2; a
/// call's arguments are meaningful where its result is `Some`.
pub ghost struct Step2Outcome {
    pub expected_call: ResultCall,
    pub expected: Option<Seq<u8>>,
    pub name_call: KeyCall,
    pub name: Option<Seq<u8>>,
    pub key_call: KeyCall,
    pub key: Option<Seq<u8>>,
}

/// What the session crypto returned during one request; `step1` is `None`
/// where drawing the ONU challenges or the ONU result failed.
pub ghost struct CryptoOutcome {
    pub step1: Option<Step1Outcome>,
    pub step2: Step2Outcome,
}

pub open spec fn security_entity(m: MibView) -> Option<RecordView> {
    entity_of(m.entities, CLASS_ENHANCED_SECURITY_CONTROL, 0)
}

pub open spec fn with_security_attributes(m: MibView, attributes: Seq<AttributeView>) -> MibView {
    MibView {
        entities: update_entity(m.entities, CLASS_ENHANCED_SECURITY_CONTROL, 0, with_attributes(attributes)),
        ..m
    }
}

/// An attribute value change of the enhanced-security instance.
pub open spec fn security_avc(index: u8, value: Seq<u8>) -> AttributeValueChangeView {
    AttributeValueChangeView {
        class_id: CLASS_ENHANCED_SECURITY_CONTROL,
        entity_id: 0,
        attribute_mask: spec_attribute_bit(index).unwrap(),
        value,
    }
}

/// The byte length of `rows` 16-byte table rows as a 32-bit value (modulo 2^32).
pub open spec fn table_length(rows: nat) -> Seq<u8> {
    be32(((rows * 16) % 0x1_0000_0000) as u32)
}

pub open spec fn blocks_of_16(blocks: Seq<Seq<u8>>) -> bool {
    forall|i: int| 0 <= i < blocks.len() ==> (#[trigger] blocks[i]).len() == 16
}

/// Handshake step 1: one fresh ONU challenge per OLT challenge, and the ONU
/// authentication result, published with value changes of attributes 5 and 6.
pub open spec fn spec_step1(m: MibView, outcome: Option<Step1Outcome>) -> (MibView, bool) {
    match security_entity(m) {
        None => (m, false),
        Some(r) => match spec_challenges(r.attributes, 2, true) {
            None => (m, false),
            Some(olt) => match outcome {
                None => (m, false),
                Some(o) => if o.onu_challenges.len() != olt.len() || !blocks_of_16(o.onu_challenges) || o.result.len() != 16 {
                    (m, false)
                } else {
                    let installed = spec_install_challenges(r.attributes, o.onu_challenges, o.result);
                    let m1 = with_security_attributes(m, installed.0);
                    if !installed.1 {
                        (m1, false)
                    } else {
                        (
                            MibView {
                                attribute_value_changes: m.attribute_value_changes
                                    .push(security_avc(5, table_length(o.onu_challenges.len())))
                                    .push(security_avc(6, table_length(1))),
                                ..m1
                            },
                            true,
                        )
                    }
                },
            },
        },
    }
}

/// Publishes the authentication state (attribute 9) with a value change.
pub open spec fn spec_set_authentication_state(m: MibView, state: u8) -> MibView {
    let m1 = match security_entity(m) {
        Some(r) => match spec_set_first_byte(r.attributes, 9, state) {
            Some(attributes) => with_security_attributes(m, attributes),
            None => m,
        },
        None => m,
    };
    MibView { attribute_value_changes: m.attribute_value_changes.push(security_avc(9, seq![state])), ..m1 }
}

/// Handshake step 2: the OLT's result is checked against the expected one; a
/// mismatch fails authentication (state 4), a match stores the master session
/// key name (attribute 10) and leaves the key for installation.
pub open spec fn spec_step2(m: MibView, outcome: Step2Outcome) -> (MibView, bool) {
    match security_entity(m) {
        None => (m, false),
        Some(r) => match (spec_challenges(r.attributes, 2, true), spec_challenges(r.attributes, 5, false)) {
            (Some(_), Some(_)) => match outcome.expected {
                None => (m, false),
                Some(expected) => if expected.len() != 16 {
                    (m, false)
                } else if spec_received_result(r.attributes) != Some(expected) {
                    (spec_set_authentication_state(m, 4), true)
                } else {
                    match (outcome.name, outcome.key) {
                        (Some(name), Some(key)) => if name.len() != 16 || key.len() != 16 {
                            (m, false)
                        } else {
                            match attribute_of(r.attributes, 10) {
                                None => (m, false),
                                Some(a) => (
                                    MibView {
                                        pending_master_session_key: Some(key),
                                        ..with_security_attributes(m, attributes_replace(r.attributes, AttributeView { value: name, ..a }))
                                    },
                                    true,
                                ),
                            }
                        },
                        _ => (m, false),
                    }
                },
            },
            _ => (m, false),
        },
    }
}

/// The arguments step 1 hands the session crypto on `m`: the `k`-th ONU
/// challenge answers the `k`-th OLT challenge with the `k`-th random block
/// drawn, and the ONU result covers both challenge tables with an all-zero
/// serial number.
pub open spec fn step1_inputs(m: MibView, o: Step1Outcome) -> bool {
    security_entity(m) matches Some(r) && spec_challenges(r.attributes, 2, true) matches Some(olt) && {
        &&& o.randoms.len() == olt.len()
        &&& o.onu_challenges.len() == olt.len()
        &&& o.challenge_calls.len() == olt.len()
        &&& forall|k: int|
            0 <= k < olt.len() ==> #[trigger] o.challenge_calls[k] == (ChallengeCall { olt_challenge: olt[k], random: o.randoms[k] })
        &&& o.result_call == (ResultCall {
            olt_challenges: olt,
            onu_challenges: o.onu_challenges,
            serial: seq![0u8, 0, 0, 0, 0, 0, 0, 0],
            onu_result: true,
        })
    }
}

/// The arguments step 2 hands the session crypto on `m`: both challenge
/// tables of the instance, and for the expected OLT result the ONU's serial
/// number.
pub open spec fn step2_inputs(m: MibView, o: Step2Outcome) -> bool {
    match security_entity(m) {
        None => true,
        Some(r) => match (spec_challenges(r.attributes, 2, true), spec_challenges(r.attributes, 5, false)) {
            (Some(olt), Some(onu)) => {
                &&& (o.expected is Some ==> o.expected_call == (ResultCall {
                    olt_challenges: olt,
                    onu_challenges: onu,
                    serial: m.onu_serial,
                    onu_result: false,
                }))
                &&& (o.name is Some ==> o.name_call == (KeyCall { olt_challenges: olt, onu_challenges: onu }))
                &&& (o.key is Some ==> o.key_call == (KeyCall { olt_challenges: olt, onu_challenges: onu }))
            },
            _ => true,
        },
    }
}

/// The arguments a Set on the enhanced-security instance hands the session
/// crypto, in each handshake step it runs.
pub open spec fn spec_security_inputs(
    m: MibView,
    record: RecordView,
    updates: Seq<SetUpdateView>,
    outcome: CryptoOutcome,
) -> bool {
    let w = spec_security_writes(record.attributes, updates);
    let m1 = with_security_attributes(m, w.attributes);
    let s1 = if w.step1 { spec_step1(m1, outcome.step1) } else { (m1, true) };
    &&& match outcome.step1 {
        Some(o) => w.ok && w.step1 ==> step1_inputs(m1, o),
        None => true,
    }
    &&& (w.ok && s1.1 && w.step2 ==> step2_inputs(s1.0, outcome.step2))
}

/// Set on the enhanced-security instance: the writes, then the handshake
/// steps they start; a refusal or failure answers "attribute failed" and
/// leaves the MIB as it was.
pub open spec fn spec_security_set(
    m: MibView,
    record: RecordView,
    updates: Seq<SetUpdateView>,
    outcome: CryptoOutcome,
) -> (MibView, ResponseBodyView) {
    let w = spec_security_writes(record.attributes, updates);
    let m1 = with_security_attributes(m, w.attributes);
    if !w.ok {
        (m, result_body(RESULT_ATTRIBUTE_FAILED))
    } else {
        let s1 = if w.step1 { spec_step1(m1, outcome.step1) } else { (m1, true) };
        if !s1.1 {
            (m, result_body(RESULT_ATTRIBUTE_FAILED))
        } else {
            let s2 = if w.step2 { spec_step2(s1.0, outcome.step2) } else { (s1.0, true) };
            if !s2.1 {
                (m, result_body(RESULT_ATTRIBUTE_FAILED))
            } else {
                (MibView { entities: spec_increment_mib_sync(s2.0.entities), ..s2.0 }, ResponseBodyView::SetSuccess)
            }
        }
    }
}

/// The arguments a Set hands the session crypto: only a Set of the
/// enhanced-security instance calls it.
pub open spec fn spec_set_inputs(m: MibView, request: Request, outcome: CryptoOutcome) -> bool {
    match entity_of(m.entities, request.class_id, request.entity_id) {
        None => true,
        Some(record) => match spec_set_scan(record.attributes, request, 1, 0, Seq::empty()) {
            SetScan::Fail { .. } => true,
            SetScan::Done { updates } => request.attribute_mask != 0 && request.class_id == CLASS_ENHANCED_SECURITY_CONTROL
                && request.entity_id == 0 ==> spec_security_inputs(m, record, updates, outcome),
        },
    }
}

/// No call of the session crypto: what a request answered without one records.
pub open spec fn no_crypto() -> CryptoOutcome {
    CryptoOutcome { step1: None, step2: no_step2() }
}

pub open spec fn no_step2() -> Step2Outcome {
    let call = ResultCall { olt_challenges: Seq::empty(), onu_challenges: Seq::empty(), serial: Seq::empty(), onu_result: false };
    let key_call = KeyCall { olt_challenges: Seq::empty(), onu_challenges: Seq::empty() };
    Step2Outcome { expected_call: call, expected: None, name_call: key_call, name: None, key_call, key: None }
}

/// Set: validates every selected attribute first, then writes them all; a
/// Set that fails leaves the MIB as it was.
pub open spec fn spec_set(m: MibView, request: Request, outcome: CryptoOutcome) -> (MibView, ResponseBodyView) {
    match entity_of(m.entities, request.class_id, request.entity_id) {
        None => (m, result_body(spec_entity_error(m, request.class_id))),
        Some(record) => if request.attribute_mask == 0 {
            (m, result_body(RESULT_PARAMETER_ERROR))
        } else {
            match spec_set_scan(record.attributes, request, 1, 0, Seq::empty()) {
                SetScan::Fail { result } => (m, result_body(result)),
                SetScan::Done { updates } => if request.class_id == CLASS_ENHANCED_SECURITY_CONTROL && request.entity_id == 0 {
                    spec_security_set(m, record, updates, outcome)
                } else {
                    let entities = update_entity(
                        m.entities,
                        request.class_id,
                        request.entity_id,
                        with_attributes(spec_apply_writes(record.attributes, updates)),
                    );
                    (MibView { entities: spec_increment_mib_sync(entities), ..m }, ResponseBodyView::SetSuccess)
                },
            }
        },
    }
}

/// A write that the scan accepted against `attributes`.
pub open spec fn write_fits(attributes: Seq<AttributeView>, u: SetUpdateView) -> bool {
    attribute_of(attributes, u.index) matches Some(a) && a.writable && u.is_table == (a.table_row_len is Some)
        && (u.is_table ==> u.value.len() == a.table_row_len.unwrap() && u.value.len() >= 8)
        && (!u.is_table ==> u.value.len() == a.value.len())
}

pub open spec fn writes_fit(attributes: Seq<AttributeView>, updates: Seq<SetUpdateView>) -> bool {
    forall|i: int| 0 <= i < updates.len() ==> write_fits(attributes, #[trigger] updates[i])
}

/// An instance keeps its invariants when its attributes keep their layout and
/// the values the request handling reads.
proof fn lemma_record_relayout(r: RecordView, n: Seq<AttributeView>)
    requires
        record_wf(r),
        attributes_wf(n),
        same_layout(r.attributes, n),
        r.class_id == CLASS_ONU_DATA && r.entity_id == 0 ==> value_present(n, 1),
        r.class_id == CLASS_ENHANCED_SECURITY_CONTROL && r.entity_id == 0 ==> security_record_wf(n),
    ensures
        record_wf(RecordView { attributes: n, ..r }),
{
    assert forall|i: int| 0 <= i < n.len() implies {
        let a = #[trigger] n[i];
        &&& 1 <= a.index <= 16
        &&& (a.writable && a.table_row_len is Some ==> a.table_row_len.unwrap() >= 8)
    } by {
        assert(n[i].index == r.attributes[i].index);
    }
}

/// What an instance's attribute lookup finds obeys the instance's invariants.
proof fn lemma_record_attribute(r: RecordView, k: u8)
    requires
        record_wf(r),
    ensures
        attribute_of(r.attributes, k) matches Some(a) ==> a.index == k && 1 <= k <= 16
            && (a.writable && a.table_row_len is Some ==> a.table_row_len.unwrap() >= 8),
{
    super::sorted::lemma_lookup_found(r.attributes, k, attribute_key());
}

/// A write that fits keeps the shape of the attributes.
proof fn lemma_write_keeps_shape(orig: Seq<AttributeView>, cur: Seq<AttributeView>, u: SetUpdateView, a: AttributeView)
    requires
        attributes_wf(cur),
        same_shape(orig, cur),
        write_fits(orig, u),
        attribute_of(cur, u.index) == Some(a),
        a.index == u.index,
        rows_sorted(a.rows),
    ensures
        ({
            let n = if u.is_table { AttributeView { rows: spec_apply_row(a.rows, u.value), ..a } } else { AttributeView { value: u.value, ..a } };
            rows_sorted(n.rows) ==> {
                &&& same_shape(orig, attributes_replace(cur, n))
                &&& same_layout(cur, attributes_replace(cur, n))
                &&& attributes_wf(attributes_replace(cur, n))
            }
        }),
{
    let n = if u.is_table { AttributeView { rows: spec_apply_row(a.rows, u.value), ..a } } else { AttributeView { value: u.value, ..a } };
    lemma_replace(cur, n);
    let r = attributes_replace(cur, n);
    assert forall|k: u8| {
        &&& (#[trigger] attribute_of(orig, k) is Some <==> attribute_of(r, k) is Some)
        &&& (attribute_of(orig, k) matches Some(x) ==> attribute_of(r, k) matches Some(y) && x.writable == y.writable
            && x.table_row_len == y.table_row_len && x.value.len() == y.value.len())
    } by {
        assert(attribute_of(r, k) == if k == n.index { Some(n) } else { attribute_of(cur, k) });
    }
}

/// Applies ordinary Set writes in order.
fn apply_writes(entity: &mut ManagedEntity, updates: &Vec<SetUpdate>)
    requires
        attributes_wf(old(entity)@),
        writes_fit(old(entity)@, update_views(updates@)),
    ensures
        final(entity)@ == spec_apply_writes(old(entity)@, update_views(updates@)),
        attributes_wf(final(entity)@),
        same_layout(old(entity)@, final(entity)@),
        same_shape(old(entity)@, final(entity)@),
{
    let ghost orig = entity@;
    let ghost all = update_views(updates@);
    let mut i: usize = 0;
    assert(all.take(0) =~= Seq::<SetUpdateView>::empty());
    while i < updates.len()
        invariant
            i <= updates.len(),
            all == update_views(updates@),
            orig == old(entity)@,
            writes_fit(orig, all),
            attributes_wf(entity@),
            same_layout(orig, entity@),
            same_shape(orig, entity@),
            entity@ == spec_apply_writes(orig, all.take(i as int)),
        decreases updates.len() - i,
    {
        let update = &updates[i];
        let ghost u = update@;
        let ghost cur = entity@;
        assert(all[i as int] == u);
        assert(write_fits(orig, u));
        assert(attribute_of(orig, u.index) is Some);
        let ai = entity.find(update.index).unwrap();
        let ghost a = cur[ai as int];
        let mut attribute = entity.attribute_at(ai).duplicate();
        assert(rows_sorted(a.rows));
        if update.is_table {
            apply_row(&mut attribute, update.value.as_slice());
        } else {
            attribute = attribute.with_value(copy_bytes(update.value.as_slice()));
        }
        proof {
            lemma_write_keeps_shape(orig, cur, u, a);
            let t = all.take(i + 1);
            assert(t.drop_last() =~= all.take(i as int));
            assert(t.last() == u);
        }
        replace_existing(entity, attribute);
        i += 1;
    }
    assert(all.take(updates.len() as int) =~= all);
}

/// The bytes of a 32-bit table length for `rows` rows of sixteen bytes.
fn table_length_bytes(rows: usize) -> (bytes: Vec<u8>)
    ensures
        bytes@ == table_length(rows as nat),
{
    let low = (rows % 0x1000_0000) as u32;
    assert((low as int) * 16 == ((rows as int) * 16) % 0x1_0000_0000) by (nonlinear_arith)
        requires low as int == (rows as int) % 0x1000_0000;
    u32_bytes(low * 16)
}

impl Mib {
    /// Replaces the attributes of the instance at position `p`.
    fn replace_entity(&mut self, p: usize, entity: ManagedEntity)
        requires
            old(self).wf(),
            p < old(self)@.entities.len(),
            record_wf(RecordView { attributes: entity@, ..old(self)@.entities[p as int] }),
        ensures
            final(self).wf(),
            final(self)@ == (MibView {
                entities: update_entity(
                    old(self)@.entities,
                    old(self)@.entities[p as int].class_id,
                    old(self)@.entities[p as int].entity_id,
                    with_attributes(entity@),
                ),
                ..old(self)@
            }),
    {
        let ghost before = self@.entities;
        let ghost r = RecordView { attributes: entity@, ..before[p as int] };
        proof {
            lemma_update_entity_at(before, p as int, with_attributes(entity@));
            lemma_entities_update_wf(before, p as int, r);
        }
        assert(self.entities.len() == before.len());
        let mut record = take_record(&mut self.entities, p);
        record.entity = entity;
        assert(record@ == r);
        restore_record(&mut self.entities, p, record);
        assert(record_views(self.entities@) =~= before.update(p as int, r));
    }

    /// Puts back the instances, value changes and pending key saved before a Set.
    fn restore_security_state(&mut self, entities: Vec<EntityRecord>, changes: Vec<AttributeValueChange>, key: Option<[u8; 16]>)
        ensures
            final(self)@ == (MibView {
                entities: record_views(entities@),
                attribute_value_changes: avc_views(changes@),
                pending_master_session_key: key_view(key),
                ..old(self)@
            }),
    {
        self.entities = entities;
        self.attribute_value_changes = changes;
        self.pending_master_session_key = key;
    }

    /// Queues a value change of attribute `index` of the enhanced-security instance.
    fn queue_avc(&mut self, index: u8, value: Vec<u8>)
        requires
            1 <= index <= 16,
        ensures
            final(self)@ == (MibView {
                attribute_value_changes: old(self)@.attribute_value_changes.push(security_avc(index, value@)),
                ..old(self)@
            }),
    {
        let change = AttributeValueChange {
            class_id: CLASS_ENHANCED_SECURITY_CONTROL,
            entity_id: 0,
            attribute_mask: attribute_bit(index).unwrap(),
            value,
        };
        let ghost c = change@;
        self.attribute_value_changes.push(change);
        assert(avc_views(self.attribute_value_changes@) =~= old(self)@.attribute_value_changes.push(c));
    }
}

impl Mib {
    /// Publishes the authentication state (attribute 9 of the enhanced-security instance).
    fn set_enhanced_authentication_state(&mut self, state: u8)
        requires
            old(self).wf(),
        ensures
            final(self).wf(),
            final(self)@ == spec_set_authentication_state(old(self)@, state),
    {
        if let Some(p) = find_record(&self.entities, CLASS_ENHANCED_SECURITY_CONTROL, 0) {
            let ghost r = self@.entities[p as int];
            assert(r == self.entities@[p as int]@);
            assert(record_wf(r));
            let mut entity = self.entities[p].entity.duplicate();
            if set_state_byte(&mut entity, 9, state) {
                proof {
                    lemma_record_relayout(r, entity@);
                }
                self.replace_entity(p, entity);
            }
        }
        let value = vec![state];
        assert(value@ =~= seq![state]);
        self.queue_avc(9, value);
    }

    /// Handshake step 1; returns whether it succeeded and what the session
    /// crypto was handed and returned.
    fn enhanced_security_step1<S: SessionCrypto>(&mut self, crypto: &mut S) -> (out: (bool, Ghost<Option<Step1Outcome>>))
        requires
            old(self).wf(),
        ensures
            final(self).wf(),
            (final(self)@, out.0) == spec_step1(old(self)@, out.1@),
            out.1@ matches Some(o) ==> step1_inputs(old(self)@, o),
    {
        let p = match find_record(&self.entities, CLASS_ENHANCED_SECURITY_CONTROL, 0) {
            Some(p) => p,
            None => return (false, Ghost(None)),
        };
        let ghost r = self@.entities[p as int];
        assert(r == self.entities@[p as int]@);
        let olt = match challenges(&self.entities[p].entity, 2, true) {
            Some(olt) => olt,
            None => return (false, Ghost(None)),
        };
        let mut onu: Vec<[u8; 16]> = Vec::new();
        let ghost mut randoms: Seq<Seq<u8>> = Seq::empty();
        let ghost mut calls: Seq<ChallengeCall> = Seq::empty();
        let mut i: usize = 0;
        while i < olt.len()
            invariant
                i <= olt.len(),
                onu.len() == i,
                randoms.len() == i,
                calls.len() == i,
                forall|k: int| 0 <= k < i ==> #[trigger] calls[k] == (ChallengeCall { olt_challenge: olt@[k]@, random: randoms[k] }),
                self == old(self),
                self.wf(),
                p < self@.entities.len(),
                r == self@.entities[p as int],
                r == self.entities@[p as int]@,
                security_entity(self@) == Some(r),
                spec_challenges(r.attributes, 2, true) == Some(blocks_view(olt@)),
            decreases olt.len() - i,
        {
            let random = match crypto.random_block() {
                Some(random) => random,
                None => return (false, Ghost(None)),
            };
            let (challenge, call) = answer_challenge(crypto, &olt[i], &random);
            onu.push(challenge);
            proof {
                randoms = randoms.push(random@);
                calls = calls.push(call@);
            }
            i += 1;
        }
        let zeros: [u8; 8] = [0u8; 8];
        assert(zeros@ =~= seq![0u8, 0, 0, 0, 0, 0, 0, 0]);
        let (result, result_call) = authentication_result(crypto, &olt, &onu, &zeros, true);
        let result = match result {
            Some(result) => result,
            None => return (false, Ghost(None)),
        };
        let ghost o = Step1Outcome {
            randoms,
            challenge_calls: calls,
            onu_challenges: blocks_view(onu@),
            result_call: result_call@,
            result: result@,
        };
        assert(blocks_of_16(o.onu_challenges));
        assert(step1_inputs(old(self)@, o));
        let mut entity = self.entities[p].entity.duplicate();
        let ok = install_challenges(&mut entity, &onu, &result);
        proof {
            lemma_record_relayout(r, entity@);
        }
        self.replace_entity(p, entity);
        if !ok {
            return (false, Ghost(Some(o)));
        }
        self.queue_avc(5, table_length_bytes(onu.len()));
        self.queue_avc(6, table_length_bytes(1));
        (true, Ghost(Some(o)))
    }

    /// Handshake step 2; returns whether it succeeded and what the session
    /// crypto was handed and returned.
    fn enhanced_security_step2<S: SessionCrypto>(&mut self, crypto: &mut S) -> (out: (bool, Ghost<Step2Outcome>))
        requires
            old(self).wf(),
        ensures
            final(self).wf(),
            (final(self)@, out.0) == spec_step2(old(self)@, out.1@),
            step2_inputs(old(self)@, out.1@),
    {
        let ghost none = no_step2();
        let p = match find_record(&self.entities, CLASS_ENHANCED_SECURITY_CONTROL, 0) {
            Some(p) => p,
            None => return (false, Ghost(none)),
        };
        let ghost r = self@.entities[p as int];
        assert(r == self.entities@[p as int]@);
        let olt = match challenges(&self.entities[p].entity, 2, true) {
            Some(olt) => olt,
            None => return (false, Ghost(none)),
        };
        let onu = match challenges(&self.entities[p].entity, 5, false) {
            Some(onu) => onu,
            None => return (false, Ghost(none)),
        };
        let (expected, expected_call) = authentication_result(crypto, &olt, &onu, &self.onu_serial, false);
        let expected = match expected {
            Some(expected) => expected,
            None => return (false, Ghost(none)),
        };
        let ghost o = Step2Outcome { expected_call: expected_call@, expected: Some(expected@), ..none };
        if !received_result_is(&self.entities[p].entity, &expected) {
            self.set_enhanced_authentication_state(4);
            return (true, Ghost(o));
        }
        let (name, name_call) = master_session_key_name(crypto, &olt, &onu);
        let name = match name {
            Some(name) => name,
            None => return (false, Ghost(o)),
        };
        let ghost o = Step2Outcome { name_call: name_call@, name: Some(name@), ..o };
        let (key, key_call) = master_session_key(crypto, &olt, &onu);
        let key = match key {
            Some(key) => key,
            None => return (false, Ghost(o)),
        };
        let ghost o = Step2Outcome { key_call: key_call@, key: Some(key@), ..o };
        let mut entity = self.entities[p].entity.duplicate();
        assert(record_wf(r));
        if !set_attribute_value(&mut entity, 10, copy_bytes(name.as_slice())) {
            return (false, Ghost(o));
        }
        proof {
            lemma_record_relayout(r, entity@);
        }
        self.replace_entity(p, entity);
        self.pending_master_session_key = Some(key);
        (true, Ghost(o))
    }
}

/// Asks the session crypto for the ONU challenge answering `olt_challenge`
/// with `random`, and records the arguments.
fn answer_challenge<S: SessionCrypto>(crypto: &mut S, olt_challenge: &[u8; 16], random: &[u8; 16]) -> (out: ([u8; 16], Ghost<ChallengeCall>))
    ensures
        out.1@ == (ChallengeCall { olt_challenge: olt_challenge@, random: random@ }),
{
    (crypto.onu_random_challenge(olt_challenge, random), Ghost(ChallengeCall { olt_challenge: olt_challenge@, random: random@ }))
}

/// Asks the session crypto for an authentication result, and records the arguments.
fn authentication_result<S: SessionCrypto>(
    crypto: &mut S,
    olt_challenges: &Vec<[u8; 16]>,
    onu_challenges: &Vec<[u8; 16]>,
    serial: &[u8; 8],
    onu_result: bool,
) -> (out: (Option<[u8; 16]>, Ghost<ResultCall>))
    ensures
        out.1@ == (ResultCall {
            olt_challenges: blocks_view(olt_challenges@),
            onu_challenges: blocks_view(onu_challenges@),
            serial: serial@,
            onu_result,
        }),
{
    let call = Ghost(ResultCall {
        olt_challenges: blocks_view(olt_challenges@),
        onu_challenges: blocks_view(onu_challenges@),
        serial: serial@,
        onu_result,
    });
    (crypto.authentication_result(olt_challenges, onu_challenges, serial, onu_result), call)
}

/// Asks the session crypto for the master session key name, and records the arguments.
fn master_session_key_name<S: SessionCrypto>(
    crypto: &mut S,
    olt_challenges: &Vec<[u8; 16]>,
    onu_challenges: &Vec<[u8; 16]>,
) -> (out: (Option<[u8; 16]>, Ghost<KeyCall>))
    ensures
        out.1@ == (KeyCall { olt_challenges: blocks_view(olt_challenges@), onu_challenges: blocks_view(onu_challenges@) }),
{
    let call = Ghost(KeyCall { olt_challenges: blocks_view(olt_challenges@), onu_challenges: blocks_view(onu_challenges@) });
    (crypto.master_session_key_name(olt_challenges, onu_challenges), call)
}

/// Asks the session crypto for the master session key, and records the arguments.
fn master_session_key<S: SessionCrypto>(
    crypto: &mut S,
    olt_challenges: &Vec<[u8; 16]>,
    onu_challenges: &Vec<[u8; 16]>,
) -> (out: (Option<[u8; 16]>, Ghost<KeyCall>))
    ensures
        out.1@ == (KeyCall { olt_challenges: blocks_view(olt_challenges@), onu_challenges: blocks_view(onu_challenges@) }),
{
    let call = Ghost(KeyCall { olt_challenges: blocks_view(olt_challenges@), onu_challenges: blocks_view(onu_challenges@) });
    (crypto.master_session_key(olt_challenges, onu_challenges), call)
}

/// Scans past a selected attribute: the next update and cursor.
proof fn lemma_scan_fits(record: RecordView, u: SetUpdateView)
    requires
        record_wf(record),
        attribute_of(record.attributes, u.index) matches Some(a) && a.writable && u.is_table == (a.table_row_len is Some)
            && u.value.len() == (match a.table_row_len { Some(row_len) => row_len as int, None => a.value.len() as int }),
    ensures
        write_fits(record.attributes, u),
{
    lemma_record_attribute(record, u.index);
}

impl Mib {
    fn handle_set<S: SessionCrypto>(&mut self, request: &Request, crypto: &mut S) -> (out: (Response, Ghost<CryptoOutcome>))
        requires
            old(self).wf(),
        ensures
            final(self).wf(),
            final(self)@ == spec_set(old(self)@, *request, out.1@).0,
            out.0@ == spec_answer(request, spec_set(old(self)@, *request, out.1@).1),
            spec_set_inputs(old(self)@, *request, out.1@),
    {
        let ghost none = no_crypto();
        let p = match find_record(&self.entities, request.class_id, request.entity_id) {
            Some(p) => p,
            None => return (self.entity_error(request), Ghost(none)),
        };
        let ghost record = self@.entities[p as int];
        assert(record == self.entities@[p as int]@);
        if request.attribute_mask == 0 {
            return (Response::new(request, RESULT_PARAMETER_ERROR), Ghost(none));
        }
        let mut cursor: usize = 0;
        let mut updates: Vec<SetUpdate> = Vec::new();
        let mut index: u8 = 1;
        assert(update_views(updates@) =~= Seq::<SetUpdateView>::empty());
        while index <= 16
            invariant
                1 <= index <= 17,
                self == old(self),
                self.wf(),
                request.attribute_mask != 0,
                entity_of(self@.entities, request.class_id, request.entity_id) == Some(record),
                p < self.entities.len(),
                record == self.entities@[p as int]@,
                record == self@.entities[p as int],
                cursor <= request.content@.len(),
                writes_fit(record.attributes, update_views(updates@)),
                spec_set_scan(record.attributes, *request, 1, 0, Seq::empty())
                    == spec_set_scan(record.attributes, *request, index as int, cursor as int, update_views(updates@)),
            decreases 17 - index,
        {
            let bit = attribute_bit(index).unwrap();
            if request.attribute_mask & bit != 0 {
                let entity = &self.entities[p].entity;
                let ai = match entity.find(index) {
                    Some(ai) => ai,
                    None => return (Response::new(request, RESULT_ATTRIBUTE_FAILED), Ghost(none)),
                };
                let attribute = entity.attribute_at(ai);
                if !attribute.writable() {
                    return (Response::new(request, RESULT_ATTRIBUTE_FAILED), Ghost(none));
                }
                let is_table = attribute.table_row_len().is_some();
                let length = match attribute.table_row_len() {
                    Some(row_len) => row_len,
                    None => attribute.value().len(),
                };
                if is_table && !single_bit(request.attribute_mask) {
                    return (Response::new(request, RESULT_PARAMETER_ERROR), Ghost(none));
                }
                if length > request.content.len() - cursor {
                    return (Response::new(request, RESULT_PARAMETER_ERROR), Ghost(none));
                }
                let value = slice_bytes(request.content.as_slice(), cursor, cursor + length);
                let update = SetUpdate { index, value, is_table };
                let ghost u = update@;
                proof {
                    lemma_scan_fits(record, u);
                }
                let ghost before = update_views(updates@);
                updates.push(update);
                assert(update_views(updates@) =~= before.push(u));
                cursor = cursor + length;
            }
            index += 1;
        }
        let ghost all = update_views(updates@);
        if request.class_id == CLASS_ENHANCED_SECURITY_CONTROL && request.entity_id == 0 {
            let mut entity = self.entities[p].entity.duplicate();
            proof {
                assert(security_record_wf(record.attributes));
                assert forall|i: int| 0 <= i < all.len() implies {
                    let u = #[trigger] all[i];
                    &&& (u.is_table ==> u.value.len() >= 8)
                    &&& (!u.is_table && (u.index == 3 || u.index == 8) ==> u.value.len() >= 1)
                } by {
                    assert(write_fits(record.attributes, all[i]));
                }
            }
            let (ok, step1, step2) = security_writes(&mut entity, &updates);
            if !ok {
                return (Response::new(request, RESULT_ATTRIBUTE_FAILED), Ghost(none));
            }
            let saved_entities = copy_records(&self.entities);
            let saved_changes = copy_changes(&self.attribute_value_changes);
            let saved_key = self.pending_master_session_key;
            proof {
                lemma_record_relayout(record, entity@);
            }
            self.replace_entity(p, entity);
            let ghost mut outcome = none;
            if step1 {
                let (done, o) = self.enhanced_security_step1(crypto);
                proof {
                    outcome = CryptoOutcome { step1: o@, ..outcome };
                }
                if !done {
                    self.restore_security_state(saved_entities, saved_changes, saved_key);
                    assert(self@ =~= old(self)@);
                    return (Response::new(request, RESULT_ATTRIBUTE_FAILED), Ghost(outcome));
                }
            }
            if step2 {
                let (done, o) = self.enhanced_security_step2(crypto);
                proof {
                    outcome = CryptoOutcome { step2: o@, ..outcome };
                }
                if !done {
                    self.restore_security_state(saved_entities, saved_changes, saved_key);
                    assert(self@ =~= old(self)@);
                    return (Response::new(request, RESULT_ATTRIBUTE_FAILED), Ghost(outcome));
                }
            }
            self.increment_mib_sync();
            return (Response::set_success(request), Ghost(outcome));
        }
        let mut entity = self.entities[p].entity.duplicate();
        apply_writes(&mut entity, &updates);
        proof {
            let n = entity@;
            if request.class_id == CLASS_ONU_DATA && request.entity_id == 0 {
                assert(attribute_of(record.attributes, 1) is Some ==> attribute_of(n, 1) is Some);
            }
            lemma_record_relayout(record, n);
        }
        self.replace_entity(p, entity);
        self.increment_mib_sync();
        (Response::set_success(request), Ghost(none))
    }
}

/// Whether the request names a class this MIB handles: a registered class,
/// and not the enhanced-security class while enhanced security is off.
pub open spec fn spec_class_accepted(m: MibView, request: Request) -> bool {
    !(request.class_id == CLASS_ENHANCED_SECURITY_CONTROL && !m.enhanced_security)
        && spec_managed_entity(request.class_id) is Some
}

/// The answer to one OLT request and the MIB after it. The session crypto's
/// values matter only to a Set of the enhanced-security instance.
pub open spec fn spec_dispatch(m: MibView, request: Request, outcome: CryptoOutcome) -> (MibView, ResponseBodyView) {
    if !spec_class_accepted(m, request) {
        (m, result_body(RESULT_UNKNOWN_ME))
    } else if !spec_supports_action(spec_managed_entity(request.class_id).unwrap().actions, request.action) {
        (m, result_body(RESULT_COMMAND_NOT_SUPPORTED))
    } else if request.action == ACTION_CREATE {
        spec_create(m, request)
    } else if request.action == ACTION_DELETE {
        spec_delete(m, request)
    } else if request.action == ACTION_GET || request.action == ACTION_GET_CURRENT_DATA {
        spec_get(m, request)
    } else if request.action == ACTION_GET_ALL_ALARMS {
        (m, ResponseBodyView::GetAllAlarms { commands: 0 })
    } else if request.action == ACTION_GET_ALL_ALARMS_NEXT {
        (m, ResponseBodyView::GetAllAlarmsNextEmpty)
    } else if request.action == ACTION_GET_NEXT {
        spec_get_next(m, request)
    } else if request.action == ACTION_SET {
        spec_set(m, request, outcome)
    } else if request.action == ACTION_SET_TABLE {
        spec_set_table(m, request)
    } else if request.action == ACTION_MIB_UPLOAD {
        spec_mib_upload(m, request)
    } else if request.action == ACTION_MIB_UPLOAD_NEXT {
        spec_mib_upload_next(m, request)
    } else if request.action == ACTION_MIB_RESET {
        spec_mib_reset(m, request)
    } else if request.action == ACTION_SYNCHRONIZE_TIME {
        spec_synchronize_time(m, request)
    } else {
        (m, result_body(RESULT_COMMAND_NOT_SUPPORTED))
    }
}

/// The arguments a request hands the session crypto: only a Set calls it.
pub open spec fn spec_dispatch_inputs(m: MibView, request: Request, outcome: CryptoOutcome) -> bool {
    spec_class_accepted(m, request) && spec_supports_action(spec_managed_entity(request.class_id).unwrap().actions, request.action)
        && request.action == ACTION_SET ==> spec_set_inputs(m, request, outcome)
}

/// The requests `dispatch` cannot answer: an action code above 31 for a class
/// it handles, and a Get Next that `spec_get_next_fails` describes.
pub open spec fn spec_dispatch_fails(m: MibView, request: Request) -> bool {
    spec_class_accepted(m, request) && (request.action >= 32 || (
        spec_supports_action(spec_managed_entity(request.class_id).unwrap().actions, request.action)
            && request.action == ACTION_GET_NEXT && spec_get_next_fails(m, request)))
}

impl Mib {
    /// Whether `dispatch` cannot answer `request`: an action code above 31 for
    /// a class it handles, or a Get Next without a sequence number or past the
    /// start of an empty table.
    pub fn dispatch_panics(&self, request: &Request) -> (panics: bool)
        ensures
            panics == spec_dispatch_fails(self@, *request),
    {
        if request.class_id == CLASS_ENHANCED_SECURITY_CONTROL && !self.enhanced_security {
            return false;
        }
        let definition = match managed_entity(request.class_id) {
            Some(definition) => definition,
            None => return false,
        };
        if request.action >= 32 {
            return true;
        }
        if !definition.supports_action(request.action) || request.action != ACTION_GET_NEXT {
            return false;
        }
        match &self.table_snapshot {
            None => false,
            Some(snapshot) => {
                assert(self@.table_snapshot == Some(snapshot@));
                if snapshot.class_id != request.class_id || snapshot.entity_id != request.entity_id
                    || snapshot.attribute_mask != request.attribute_mask
                {
                    return false;
                }
                if request.content.len() < 2 {
                    return true;
                }
                let sequence = (request.content[0] as usize) * 256 + (request.content[1] as usize);
                proof {
                    let capacity = spec_get_next_value_capacity(request.encoding) as int;
                    assert(capacity > 0);
                    assert(sequence == spec_get_next_sequence(*request));
                    assert((sequence as int * capacity > 0) == (sequence != 0)) by (nonlinear_arith)
                        requires capacity > 0, sequence >= 0;
                }
                snapshot.bytes.len() == 0 && sequence != 0
            },
        }
    }
}

impl Mib {
    /// Answers one OLT request, updating the MIB; `crypto` supplies the
    /// randomness and keys of the enhanced-security handshake. The answer is
    /// the one `spec_dispatch` gives for what the session crypto returned,
    /// and `spec_dispatch_inputs` says what it was handed.
    pub fn dispatch<S: SessionCrypto>(&mut self, request: &Request, crypto: &mut S) -> (response: Response)
        requires
            old(self).wf(),
            !spec_dispatch_fails(old(self)@, *request),
        ensures
            final(self).wf(),
            exists|outcome: CryptoOutcome| {
                &&& #[trigger] spec_dispatch(old(self)@, *request, outcome).0 == final(self)@
                &&& response@ == spec_answer(request, spec_dispatch(old(self)@, *request, outcome).1)
                &&& spec_dispatch_inputs(old(self)@, *request, outcome)
            },
    {
        let ghost none = no_crypto();
        if request.class_id == CLASS_ENHANCED_SECURITY_CONTROL && !self.enhanced_security {
            let response = Response::new(request, RESULT_UNKNOWN_ME);
            assert(spec_dispatch(old(self)@, *request, none).0 == self@);
            return response;
        }
        let definition = match managed_entity(request.class_id) {
            Some(definition) => definition,
            None => {
                let response = Response::new(request, RESULT_UNKNOWN_ME);
                assert(spec_dispatch(old(self)@, *request, none).0 == self@);
                return response;
            },
        };
        if !definition.supports_action(request.action) {
            let response = Response::new(request, RESULT_COMMAND_NOT_SUPPORTED);
            assert(spec_dispatch(old(self)@, *request, none).0 == self@);
            return response;
        }
        let action = request.action;
        if action == ACTION_SET {
            let (response, outcome) = self.handle_set(request, crypto);
            assert(spec_dispatch(old(self)@, *request, outcome@).0 == self@);
            return response;
        }
        let response = if action == ACTION_CREATE {
            self.handle_create(request)
        } else if action == ACTION_DELETE {
            self.handle_delete(request)
        } else if action == ACTION_GET || action == ACTION_GET_CURRENT_DATA {
            self.handle_get(request)
        } else if action == ACTION_GET_ALL_ALARMS {
            Response::get_all_alarms(request, 0)
        } else if action == ACTION_GET_ALL_ALARMS_NEXT {
            Response::get_all_alarms_next_empty(request)
        } else if action == ACTION_GET_NEXT {
            self.handle_get_next(request)
        } else if action == ACTION_SET_TABLE {
            self.handle_set_table(request)
        } else if action == ACTION_MIB_UPLOAD {
            self.handle_mib_upload(request)
        } else if action == ACTION_MIB_UPLOAD_NEXT {
            self.handle_mib_upload_next(request)
        } else if action == ACTION_MIB_RESET {
            self.handle_mib_reset(request)
        } else if action == ACTION_SYNCHRONIZE_TIME {
            self.handle_synchronize_time(request)
        } else {
            Response::new(request, RESULT_COMMAND_NOT_SUPPORTED)
        };
        assert(spec_dispatch(old(self)@, *request, none).0 == self@);
        response
    }
}

/// The record of an autonomous instance, where there is one.
pub open spec fn autonomous_record(class_id: u16, entity_id: u16, attributes: Option<Seq<AttributeView>>) -> Option<RecordView> {
    match attributes {
        Some(a) => Some(RecordView { class_id, entity_id, attributes: a, olt_created: false }),
        None => None,
    }
}

/// Every attribute index lies in 1..=16 and writable tables have row keys.
pub open spec fn layout_valid(attributes: Seq<AttributeView>) -> bool {
    forall|i: int| 0 <= i < attributes.len() ==> {
        let a = #[trigger] attributes[i];
        &&& 1 <= a.index <= 16
        &&& (a.writable && a.table_row_len is Some ==> a.table_row_len.unwrap() >= 8)
    }
}

proof fn lemma_groups_registered(g: int)
    requires
        0 <= g < GROUP_COUNT,
    ensures
        spec_managed_entity(group_class(g)) is Some,
{
    reveal(spec_managed_entity);
}

/// The autonomous instances are well-formed records.
proof fn lemma_group_record_wf(identity: IdentityConfig, serial: Seq<u8>, g: int, entity_id: u16)
    requires
        0 <= g < GROUP_COUNT,
        attributes_wf(group_instance(identity, serial, g, entity_id as int)),
    ensures
        record_wf(RecordView {
            class_id: group_class(g),
            entity_id,
            attributes: group_instance(identity, serial, g, entity_id as int),
            olt_created: false,
        }),
{
    let a = group_instance(identity, serial, g, entity_id as int);
    let r = RecordView { class_id: group_class(g), entity_id, attributes: a, olt_created: false };
    if g == 13 || g == 14 {
        lemma_groups_registered(g);
        super::mib::lemma_entity_defined(group_class(g));
        lemma_defined_entity_wf(group_class(g), None, group_class(g), entity_id);
    } else if g == 15 {
        lemma_groups_registered(g);
        lemma_entity_defined(CLASS_OMCI);
        lemma_defined_entity_wf(CLASS_OMCI, None, CLASS_OMCI, entity_id);
        let base = spec_entity_from_definition(CLASS_OMCI, None).unwrap();
        let base_record = RecordView { attributes: base, ..r };
        assert(record_wf(base_record));
        super::autonomous::lemma_omci_base();
        lemma_attribute_position(base, 0);
        lemma_attribute_position(base, 1);
        lemma_attribute_of(base, 1);
        let a1 = attribute_of(base, 1).unwrap();
        let with_classes = attributes_replace(
            base,
            AttributeView { rows: super::autonomous::class_table_rows(super::schema::spec_class_ids(), !identity.disable_enhanced_security), ..a1 },
        );
        lemma_replace(base, AttributeView { rows: super::autonomous::class_table_rows(super::schema::spec_class_ids(), !identity.disable_enhanced_security), ..a1 });
        let a2 = attribute_of(with_classes, 2).unwrap();
        lemma_attribute_of(base, 2);
        super::sorted::lemma_lookup_found(with_classes, 2, attribute_key());
        assert(a2.index == 2);
        super::autonomous::lemma_class_rows_sorted(super::schema::spec_class_ids(), !identity.disable_enhanced_security);
        lemma_replace(with_classes, AttributeView { rows: super::autonomous::message_table_rows(32), ..a2 });
        lemma_record_relayout(base_record, a);
    } else {
        assert(layout_valid(a));
        if g == 0 {
            lemma_attribute_position(a, 0);
        }
        if g == 7 {
            lemma_attribute_position(a, 2);
            lemma_attribute_position(a, 4);
            lemma_attribute_position(a, 5);
            lemma_attribute_position(a, 7);
            lemma_attribute_position(a, 8);
        }
    }
}

/// A registered class that the OLT creates.
pub open spec fn olt_class(class_id: u16) -> bool {
    spec_managed_entity(class_id) matches Some(d) && d.origin == ManagedEntityOrigin::Olt
}

/// The instance `(class_id, entity_id)` while group `g` is being created, after its first `k` instances.
pub open spec fn autonomous_partial(identity: IdentityConfig, serial: Seq<u8>, g: int, k: int, class_id: u16, entity_id: u16) -> Option<Seq<AttributeView>> {
    if class_id == group_class(g) && group_first(g) <= entity_id < group_first(g) + k {
        Some(group_instance(identity, serial, g, entity_id as int))
    } else {
        autonomous_upto(identity, serial, g, class_id, entity_id)
    }
}

impl Mib {
    /// The MIB of a freshly started ONU: the autonomous instances its identity
    /// describes, every registered class known, the OLT-created classes
    /// creatable, and the autonomous instances kept as the MIB Reset template.
    pub fn from_identity(identity: &IdentityConfig) -> (mib: Mib)
        ensures
            mib.wf(),
            forall|c: u16, e: u16| #[trigger] entity_of(mib@.entities, c, e) == autonomous_record(c, e, autonomous_instance(*identity, c, e)),
            mib@.autonomous_defaults == mib@.entities,
            forall|c: u16| #[trigger] mib@.known_classes.contains(c) <==> spec_managed_entity(c) is Some,
            forall|c: u16| #[trigger] mib@.dynamic_classes.contains(c) <==> olt_class(c),
            mib@.table_snapshot is None,
            mib@.upload_snapshot == Seq::<UploadRecordView>::empty(),
            mib@.onu_serial == spec_onu_g_serial(identity.vendor_id@, identity.serial_number@),
            mib@.pending_master_session_key is None,
            mib@.attribute_value_changes == Seq::<AttributeValueChangeView>::empty(),
            mib@.enhanced_security == !identity.disable_enhanced_security,
    {
        let serial_bytes = identity.onu_g_serial();
        let onu_serial = serial_array(&serial_bytes);
        let ghost serial = onu_serial@;
        let enhanced = !identity.disable_enhanced_security;
        let mut mib = Mib {
            entities: Vec::new(),
            autonomous_defaults: Vec::new(),
            known_classes: BTreeSet::new(),
            dynamic_classes: BTreeSet::new(),
            table_snapshot: None,
            upload_snapshot: Vec::new(),
            onu_serial,
            pending_master_session_key: None,
            attribute_value_changes: Vec::new(),
            enhanced_security: enhanced,
        };
        proof {
            assert(mib@.entities =~= Seq::<RecordView>::empty());
            assert(mib@.autonomous_defaults =~= Seq::<RecordView>::empty());
            assert(mib@.upload_snapshot =~= Seq::<UploadRecordView>::empty());
            assert(mib@.attribute_value_changes =~= Seq::<AttributeValueChangeView>::empty());
        }
        let mut g: u8 = 0;
        while g < GROUP_COUNT
            invariant
                g <= GROUP_COUNT,
                mib.wf(),
                serial == onu_serial@,
                serial == spec_onu_g_serial(identity.vendor_id@, identity.serial_number@),
                enhanced == !identity.disable_enhanced_security,
                forall|c: u16, e: u16| #[trigger] entity_of(mib@.entities, c, e)
                    == autonomous_record(c, e, autonomous_upto(*identity, serial, g as int, c, e)),
                forall|c: u16| #[trigger] mib@.known_classes.contains(c) ==> spec_managed_entity(c) is Some,
                mib@.dynamic_classes == Set::<u16>::empty(),
                mib@.autonomous_defaults == Seq::<RecordView>::empty(),
                mib@.table_snapshot is None,
                mib@.upload_snapshot == Seq::<UploadRecordView>::empty(),
                mib@.onu_serial == serial,
                mib@.pending_master_session_key is None,
                mib@.attribute_value_changes == Seq::<AttributeValueChangeView>::empty(),
                mib@.enhanced_security == enhanced,
            decreases GROUP_COUNT - g,
        {
            let class_id = group_class_of(g);
            let first = group_first_of(g);
            let count = group_count_of(g, enhanced);
            proof {
                lemma_groups_registered(g as int);
            }
            let mut k: u16 = 0;
            while k < count
                invariant
                    g < GROUP_COUNT,
                    k <= count,
                    class_id == group_class(g as int),
                    first == group_first(g as int),
                    count == group_count(g as int, enhanced),
                    first as int + count as int <= 0x8080,
                    spec_managed_entity(class_id) is Some,
                    mib.wf(),
                    serial == onu_serial@,
                    serial == spec_onu_g_serial(identity.vendor_id@, identity.serial_number@),
                    enhanced == !identity.disable_enhanced_security,
                    forall|c: u16, e: u16| #[trigger] entity_of(mib@.entities, c, e)
                        == autonomous_record(c, e, autonomous_partial(*identity, serial, g as int, k as int, c, e)),
                    forall|c: u16| #[trigger] mib@.known_classes.contains(c) ==> spec_managed_entity(c) is Some,
                    mib@.dynamic_classes == Set::<u16>::empty(),
                    mib@.autonomous_defaults == Seq::<RecordView>::empty(),
                    mib@.table_snapshot is None,
                    mib@.upload_snapshot == Seq::<UploadRecordView>::empty(),
                    mib@.onu_serial == serial,
                    mib@.pending_master_session_key is None,
                    mib@.attribute_value_changes == Seq::<AttributeValueChangeView>::empty(),
                    mib@.enhanced_security == enhanced,
                decreases count - k,
            {
                let entity_id = first + k;
                let entity = group_entity_of(identity, &onu_serial, g, entity_id);
                let ghost r = RecordView { class_id, entity_id, attributes: entity@, olt_created: false };
                proof {
                    lemma_group_record_wf(*identity, serial, g as int, entity_id);
                    lemma_entities_put_wf(mib@.entities, r);
                }
                let ghost before = mib@.entities;
                mib.insert(class_id, entity_id, entity);
                proof {
                    assert forall|c: u16, e: u16| #[trigger] entity_of(mib@.entities, c, e)
                        == autonomous_record(c, e, autonomous_partial(*identity, serial, g as int, k + 1, c, e)) by {
                        if (c, e) != (class_id, entity_id) {
                            assert(entity_of(mib@.entities, c, e) == entity_of(before, c, e));
                        }
                    }
                }
                k += 1;
            }
            proof {
                assert forall|c: u16, e: u16| #[trigger] entity_of(mib@.entities, c, e)
                    == autonomous_record(c, e, autonomous_upto(*identity, serial, g + 1, c, e)) by {
                    assert(entity_of(mib@.entities, c, e) == autonomous_record(c, e, autonomous_partial(*identity, serial, g as int, count as int, c, e)));
                }
            }
            g += 1;
        }
        let ids = super::schema::class_ids();
        let mut i: usize = 0;
        proof {
            super::schema::lemma_managed_entities_are_sorted_and_unique();
        }
        while i < ids.len()
            invariant
                i <= ids.len(),
                ids@ == super::schema::spec_class_ids(),
                mib.wf(),
                forall|c: u16| #[trigger] spec_managed_entity(c) is Some <==> super::schema::spec_class_ids().contains(c),
                forall|c: u16| #[trigger] mib@.known_classes.contains(c) ==> spec_managed_entity(c) is Some,
                forall|j: int| 0 <= j < i ==> mib@.known_classes.contains(#[trigger] ids@[j]),
                forall|c: u16| #[trigger] mib@.dynamic_classes.contains(c) <==> (exists|j: int| 0 <= j < i && ids@[j] == c && olt_class(c)),
                forall|c: u16, e: u16| #[trigger] entity_of(mib@.entities, c, e)
                    == autonomous_record(c, e, autonomous_upto(*identity, serial, GROUP_COUNT as int, c, e)),
                serial == spec_onu_g_serial(identity.vendor_id@, identity.serial_number@),
                mib@.autonomous_defaults == Seq::<RecordView>::empty(),
                mib@.table_snapshot is None,
                mib@.upload_snapshot == Seq::<UploadRecordView>::empty(),
                mib@.onu_serial == serial,
                mib@.pending_master_session_key is None,
                mib@.attribute_value_changes == Seq::<AttributeValueChangeView>::empty(),
                mib@.enhanced_security == !identity.disable_enhanced_security,
            decreases ids.len() - i,
        {
            let class_id = ids[i];
            assert(super::schema::spec_class_ids().contains(class_id));
            let definition = managed_entity(class_id).unwrap();
            let ghost known_before = mib@.known_classes;
            let ghost dynamic_before = mib@.dynamic_classes;
            add_class(&mut mib.known_classes, class_id);
            assert(mib@.dynamic_classes == dynamic_before);
            if definition.origin == ManagedEntityOrigin::Olt {
                add_class(&mut mib.dynamic_classes, class_id);
            }
            proof {
                assert forall|c: u16| #[trigger] mib@.dynamic_classes.contains(c) <==> (exists|j: int| 0 <= j < i + 1 && ids@[j] == c && olt_class(c)) by {
                    if c == class_id && olt_class(c) {
                        assert(ids@[i as int] == c);
                    }
                    if dynamic_before.contains(c) {
                        let j = choose|j: int| 0 <= j < i && ids@[j] == c && olt_class(c);
                        assert(0 <= j < i + 1);
                    }
                    if exists|j: int| 0 <= j < i + 1 && ids@[j] == c && olt_class(c) {
                        let j = choose|j: int| 0 <= j < i + 1 && ids@[j] == c && olt_class(c);
                        if j < i {
                            assert(dynamic_before.contains(c));
                        }
                    }
                }
                assert forall|j: int| 0 <= j < i + 1 implies mib@.known_classes.contains(#[trigger] ids@[j]) by {
                    if j < i {
                        assert(known_before.contains(ids@[j]));
                    }
                }
            }
            i += 1;
        }
        let ghost dynamic = mib@.dynamic_classes;
        proof {
            assert forall|c: u16| #[trigger] dynamic.contains(c) <==> olt_class(c) by {
                if olt_class(c) {
                    assert(super::schema::spec_class_ids().contains(c));
                    let j = choose|j: int| 0 <= j < ids@.len() && ids@[j] == c;
                    assert(0 <= j < i && ids@[j] == c && olt_class(c));
                }
            }
        }
        mib.autonomous_defaults = copy_records(&mib.entities);
        assert(mib@.dynamic_classes == dynamic);
        proof {
            assert forall|c: u16| #[trigger] mib@.known_classes.contains(c) <==> spec_managed_entity(c) is Some by {
                if spec_managed_entity(c) is Some {
                    let j = choose|j: int| 0 <= j < ids@.len() && ids@[j] == c;
                    assert(mib@.known_classes.contains(ids@[j]));
                }
            }
        }
        mib
    }
}

/// `entities` with the value of attribute `index` of instance `(class_id, entity_id)` replaced, where both exist.
pub open spec fn spec_set_value(entities: Seq<RecordView>, class_id: u16, entity_id: u16, index: u8, value: Seq<u8>) -> Seq<RecordView> {
    match entity_of(entities, class_id, entity_id) {
        None => entities,
        Some(r) => match attribute_of(r.attributes, index) {
            None => entities,
            Some(a) => update_entity(
                entities,
                class_id,
                entity_id,
                with_attributes(attributes_replace(r.attributes, AttributeView { value, ..a })),
            ),
        },
    }
}

/// Replaces the value of an attribute of an ONU-G instance in `records`.
fn set_onu_g_value(records: &mut Vec<EntityRecord>, entity_id: u16, index: u8, value: Vec<u8>)
    requires
        entities_wf(record_views(old(records)@)),
    ensures
        entities_wf(record_views(final(records)@)),
        record_views(final(records)@) == spec_set_value(record_views(old(records)@), CLASS_ONU_G, entity_id, index, value@),
{
    let ghost before = record_views(records@);
    let p = match find_record(records, CLASS_ONU_G, entity_id) {
        Some(p) => p,
        None => return,
    };
    let ghost r = before[p as int];
    assert(r == records@[p as int]@);
    let ai = match records[p].entity.find(index) {
        Some(ai) => ai,
        None => return,
    };
    let ghost a = r.attributes[ai as int];
    let updated = records[p].entity.attribute_at(ai).duplicate().with_value(value);
    let ghost n = attributes_replace(r.attributes, updated@);
    proof {
        assert(record_wf(r));
        assert(rows_sorted(a.rows));
        lemma_replace(r.attributes, updated@);
        lemma_record_relayout(r, n);
        lemma_update_entity_at(before, p as int, with_attributes(n));
        lemma_entities_update_wf(before, p as int, RecordView { attributes: n, ..r });
    }
    let mut record = take_record(records, p);
    replace_existing(&mut record.entity, updated);
    restore_record(records, p, record);
    assert(record_views(records@) =~= before.update(p as int, RecordView { attributes: n, ..r }));
}

impl Mib {
    /// Takes the master session key the handshake derived, leaving none.
    pub fn take_pending_master_session_key(&mut self) -> (key: Option<[u8; 16]>)
        ensures
            key_view(key) == old(self)@.pending_master_session_key,
            final(self)@ == (MibView { pending_master_session_key: None, ..old(self)@ }),
            final(self).wf() == old(self).wf(),
    {
        let key = self.pending_master_session_key;
        self.pending_master_session_key = None;
        key
    }

    /// Records the active serial number: the ONU serial the handshake uses and
    /// ONU-G attribute 3, in the MIB and in its reset template.
    pub fn set_onu_serial(&mut self, serial: [u8; 8])
        requires
            old(self).wf(),
        ensures
            final(self).wf(),
            final(self)@ == (MibView {
                onu_serial: serial@,
                entities: spec_set_value(old(self)@.entities, CLASS_ONU_G, 0, 3, serial@),
                autonomous_defaults: spec_set_value(old(self)@.autonomous_defaults, CLASS_ONU_G, 0, 3, serial@),
                ..old(self)@
            }),
    {
        self.onu_serial = serial;
        set_onu_g_value(&mut self.entities, 0, 3, copy_bytes(serial.as_slice()));
        set_onu_g_value(&mut self.autonomous_defaults, 0, 3, copy_bytes(serial.as_slice()));
    }

    /// Publishes the outcome of installing the master session key: state 3
    /// (authenticated) where it was installed, 4 (failed) otherwise.
    pub fn complete_master_session_key_install(&mut self, installed: bool)
        requires
            old(self).wf(),
        ensures
            final(self).wf(),
            final(self)@ == spec_set_authentication_state(old(self)@, if installed { 3 } else { 4 }),
    {
        self.set_enhanced_authentication_state(if installed { 3 } else { 4 });
    }

    /// Takes the queued attribute value changes, oldest first, leaving none.
    pub fn take_attribute_value_changes(&mut self) -> (changes: Vec<AttributeValueChange>)
        ensures
            avc_views(changes@) == old(self)@.attribute_value_changes,
            final(self)@ == (MibView { attribute_value_changes: Seq::empty(), ..old(self)@ }),
            final(self).wf() == old(self).wf(),
    {
        let mut changes: Vec<AttributeValueChange> = Vec::new();
        core::mem::swap(&mut changes, &mut self.attribute_value_changes);
        assert(avc_views(self.attribute_value_changes@) =~= Seq::<AttributeValueChangeView>::empty());
        changes
    }
}

/// A big-endian 16-bit value from the first two bytes.
fn be_u16(value: &[u8]) -> (out: Option<u16>)
    ensures
        out == spec_be_u16(value@),
{
    if value.len() >= 2 {
        Some((value[0] as u16) * 256 + value[1] as u16)
    } else {
        None
    }
}

/// The path filter entry `tci` gives for bridge path `path`, if any.
fn filtered_path(operation: u8, tci: u16, path: DataPathCandidate) -> (out: Option<DataPathCandidate>)
    ensures
        forall|c: DataPathCandidate| #[trigger] is_filtered_path(operation, tci, path, c) <==> out == Some(c),
{
    if operation == 0x03 || operation == 0x04 || operation == 0x0f || operation == 0x10 || operation == 0x16 {
        let vid = tci & 0x0fff;
        if 1 <= vid && vid <= 4094 {
            Some(DataPathCandidate {
                vlan_id: vid,
                pbit_mask: if path.pbit_mask == 0 { 0xff } else { path.pbit_mask },
                ..path
            })
        } else {
            None
        }
    } else if operation == 0x07 || operation == 0x08 || operation == 0x11 || operation == 0x12 {
        let pbit = ((tci >> 13) & 7) as u8;
        assert(pbit < 8) by (bit_vector)
            requires pbit == ((tci >> 13) & 7) as u8;
        let bit = 1u8 << pbit;
        if path.pbit_mask == 0 || path.pbit_mask & bit != 0 {
            Some(DataPathCandidate { pbit_mask: bit, ..path })
        } else {
            None
        }
    } else {
        None
    }
}

/// One P-bit further, the mapper fold changes only for the GEM that P-bit reaches.
proof fn lemma_fold_step(s: Seq<RecordView>, mapper: u16, pbit: u8, g: u16)
    requires
        pbit < 8,
    ensures
        spec_mapper_fold(s, mapper, g, (pbit + 1) as nat) == match spec_pbit_path(s, mapper, pbit) {
            Some(c) => if c.gem_id == g {
                match spec_mapper_fold(s, mapper, g, pbit as nat) {
                    Some(p) => Some(DataPathCandidate { pbit_mask: p.pbit_mask | ((1u8 << pbit) as u8), ..p }),
                    None => Some(DataPathCandidate { pbit_mask: c.pbit_mask | ((1u8 << pbit) as u8), ..c }),
                }
            } else {
                spec_mapper_fold(s, mapper, g, pbit as nat)
            },
            None => spec_mapper_fold(s, mapper, g, pbit as nat),
        },
{
    assert(((pbit + 1) as nat - 1) as u8 == pbit);
}

impl Mib {
    fn attr_value_of(&self, class_id: u16, entity_id: u16, index: u8) -> (value: Option<&Vec<u8>>)
        ensures
            match value {
                Some(v) => attr_value(self@.entities, class_id, entity_id, index) == Some(v@),
                None => attr_value(self@.entities, class_id, entity_id, index) is None,
            },
    {
        let p = match find_record(&self.entities, class_id, entity_id) {
            Some(p) => p,
            None => return None,
        };
        assert(self@.entities[p as int] == self.entities@[p as int]@);
        match self.entities[p].entity.attribute(index) {
            Some(attribute) => Some(attribute.value()),
            None => None,
        }
    }

    fn attr_u16_of(&self, class_id: u16, entity_id: u16, index: u8) -> (value: Option<u16>)
        ensures
            value == attr_u16(self@.entities, class_id, entity_id, index),
    {
        match self.attr_value_of(class_id, entity_id, index) {
            Some(v) => be_u16(v.as_slice()),
            None => None,
        }
    }

    fn attr_byte_of(&self, class_id: u16, entity_id: u16, index: u8) -> (value: Option<u8>)
        ensures
            value == attr_byte(self@.entities, class_id, entity_id, index),
    {
        match self.attr_value_of(class_id, entity_id, index) {
            Some(v) => if v.len() > 0 { Some(v[0]) } else { None },
            None => None,
        }
    }

    fn tcont_alloc(&self, tcont: u16) -> (alloc: Option<u16>)
        ensures
            alloc == spec_tcont_alloc(self@.entities, tcont),
    {
        match self.attr_u16_of(CLASS_TCONT, tcont, 1) {
            Some(alloc) => if alloc != 0xffff { Some(alloc) } else { None },
            None => None,
        }
    }

    fn unicast_path(&self, ctp: u16) -> (path: Option<DataPathCandidate>)
        ensures
            path == spec_unicast(self@.entities, ctp),
    {
        let gem_id = self.attr_u16_of(CLASS_GEM_PORT_NETWORK_CTP, ctp, 1);
        let tcont = self.attr_u16_of(CLASS_GEM_PORT_NETWORK_CTP, ctp, 2);
        let direction = self.attr_byte_of(CLASS_GEM_PORT_NETWORK_CTP, ctp, 3);
        match (gem_id, tcont, direction) {
            (Some(gem_id), Some(tcont), Some(direction)) => if direction == 3 {
                match self.tcont_alloc(tcont) {
                    Some(alloc_id) => Some(DataPathCandidate { alloc_id, gem_id, vlan_id: DATA_PATH_VLAN_ANY, pbit_mask: 0, multicast: false }),
                    None => None,
                }
            } else {
                None
            },
            _ => None,
        }
    }

    fn multicast_path(&self, iwtp: u16) -> (path: Option<DataPathCandidate>)
        ensures
            path == spec_multicast(self@.entities, iwtp),
    {
        match self.attr_u16_of(CLASS_MULTICAST_GEM_INTERWORKING_TP, iwtp, 1) {
            Some(ctp) => match self.attr_u16_of(CLASS_GEM_PORT_NETWORK_CTP, ctp, 1) {
                Some(gem_id) => Some(DataPathCandidate { alloc_id: 0xffff, gem_id, vlan_id: DATA_PATH_VLAN_ANY, pbit_mask: 0xff, multicast: true }),
                None => None,
            },
            None => None,
        }
    }

    fn pbit_path(&self, mapper: u16, pbit: u8) -> (path: Option<DataPathCandidate>)
        requires
            pbit < 8,
        ensures
            path == spec_pbit_path(self@.entities, mapper, pbit),
    {
        match self.attr_u16_of(CLASS_IEEE_8021P_MAPPER, mapper, pbit + 2) {
            Some(pointer) => if pointer == 0xffff {
                None
            } else {
                let ctp = match self.attr_u16_of(CLASS_GEM_INTERWORKING_TP, pointer, 1) {
                    Some(c) => c,
                    None => pointer,
                };
                self.unicast_path(ctp)
            },
            None => None,
        }
    }

    /// The paths of mapper `mapper`, one per GEM it reaches.
    fn mapper_paths(&self, mapper: u16) -> (paths: Vec<DataPathCandidate>)
        ensures
            forall|c: DataPathCandidate| #[trigger] paths@.contains(c)
                <==> exists|gem_id: u16| #[trigger] spec_mapper_path(self@.entities, mapper, gem_id) == Some(c),
    {
        let ghost s = self@.entities;
        let mut paths: Vec<DataPathCandidate> = Vec::new();
        if find_record(&self.entities, CLASS_IEEE_8021P_MAPPER, mapper).is_none() {
            return paths;
        }
        let mut pbit: u8 = 0;
        while pbit < 8
            invariant
                pbit <= 8,
                s == self@.entities,
                forall|g: u16| (exists|k: int| 0 <= k < paths@.len() && (#[trigger] paths@[k]).gem_id == g)
                    <==> #[trigger] spec_mapper_fold(s, mapper, g, pbit as nat) is Some,
                forall|k: int| 0 <= k < paths@.len() ==> spec_mapper_fold(s, mapper, (#[trigger] paths@[k]).gem_id, pbit as nat) == Some(paths@[k]),
                forall|k: int, l: int| 0 <= k < l < paths@.len() ==> (#[trigger] paths@[k]).gem_id != (#[trigger] paths@[l]).gem_id,
            decreases 8 - pbit,
        {
            let bit = 1u8 << pbit;
            let ghost before = paths@;
            let found = self.pbit_path(mapper, pbit);
            if found.is_none() {
                proof {
                    assert forall|g: u16| (exists|k: int| 0 <= k < paths@.len() && (#[trigger] paths@[k]).gem_id == g)
                        <==> #[trigger] spec_mapper_fold(s, mapper, g, (pbit + 1) as nat) is Some by {
                        lemma_fold_step(s, mapper, pbit, g);
                    }
                    assert forall|k: int| 0 <= k < paths@.len() implies spec_mapper_fold(s, mapper, (#[trigger] paths@[k]).gem_id, (pbit + 1) as nat) == Some(paths@[k]) by {
                        lemma_fold_step(s, mapper, pbit, paths@[k].gem_id);
                    }
                }
            }
            if let Some(c) = found {
                let mut k: usize = 0;
                while k < paths.len() && paths[k].gem_id != c.gem_id
                    invariant
                        k <= paths.len(),
                        forall|l: int| 0 <= l < k ==> (#[trigger] paths@[l]).gem_id != c.gem_id,
                    decreases paths.len() - k,
                {
                    k += 1;
                }
                if k < paths.len() {
                    let current = paths[k];
                    paths.set(k, DataPathCandidate { pbit_mask: current.pbit_mask | bit, ..current });
                    proof {
                        assert forall|m: int| 0 <= m < paths@.len() implies spec_mapper_fold(s, mapper, (#[trigger] paths@[m]).gem_id, (pbit + 1) as nat) == Some(paths@[m]) by {
                            lemma_fold_step(s, mapper, pbit, paths@[m].gem_id);
                            if m != k {
                                assert(before[m].gem_id != c.gem_id);
                            }
                        }
                        assert forall|g: u16| (exists|m: int| 0 <= m < paths@.len() && (#[trigger] paths@[m]).gem_id == g)
                            <==> #[trigger] spec_mapper_fold(s, mapper, g, (pbit + 1) as nat) is Some by {
                            lemma_fold_step(s, mapper, pbit, g);
                            if exists|m: int| 0 <= m < before.len() && before[m].gem_id == g {
                                let m = choose|m: int| 0 <= m < before.len() && before[m].gem_id == g;
                                assert(paths@[m].gem_id == g);
                            }
                            if exists|m: int| 0 <= m < paths@.len() && paths@[m].gem_id == g {
                                let m = choose|m: int| 0 <= m < paths@.len() && paths@[m].gem_id == g;
                                assert(before[m].gem_id == g);
                            }
                        }
                    }
                } else {
                    paths.push(DataPathCandidate { pbit_mask: c.pbit_mask | bit, ..c });
                    proof {
                        assert forall|m: int| 0 <= m < paths@.len() implies spec_mapper_fold(s, mapper, (#[trigger] paths@[m]).gem_id, (pbit + 1) as nat) == Some(paths@[m]) by {
                            lemma_fold_step(s, mapper, pbit, paths@[m].gem_id);
                            if m < before.len() {
                                assert(before[m].gem_id != c.gem_id);
                            } else {
                                lemma_fold_step(s, mapper, pbit, c.gem_id);
                                assert(!(spec_mapper_fold(s, mapper, c.gem_id, pbit as nat) is Some));
                            }
                        }
                        assert forall|g: u16| (exists|m: int| 0 <= m < paths@.len() && (#[trigger] paths@[m]).gem_id == g)
                            <==> #[trigger] spec_mapper_fold(s, mapper, g, (pbit + 1) as nat) is Some by {
                            lemma_fold_step(s, mapper, pbit, g);
                            if exists|m: int| 0 <= m < before.len() && before[m].gem_id == g {
                                let m = choose|m: int| 0 <= m < before.len() && before[m].gem_id == g;
                                assert(paths@[m].gem_id == g);
                            }
                            if g == c.gem_id {
                                assert(paths@[before.len() as int].gem_id == g);
                            }
                            if exists|m: int| 0 <= m < paths@.len() && paths@[m].gem_id == g {
                                let m = choose|m: int| 0 <= m < paths@.len() && paths@[m].gem_id == g;
                                if m < before.len() {
                                    assert(before[m].gem_id == g);
                                }
                            }
                        }
                    }
                }
            }
            pbit += 1;
        }
        proof {
            assert forall|c: DataPathCandidate| #[trigger] paths@.contains(c)
                <==> exists|gem_id: u16| #[trigger] spec_mapper_path(s, mapper, gem_id) == Some(c) by {
                if paths@.contains(c) {
                    let k = choose|k: int| 0 <= k < paths@.len() && paths@[k] == c;
                    assert(spec_mapper_path(s, mapper, c.gem_id) == Some(c));
                }
                if exists|gem_id: u16| #[trigger] spec_mapper_path(s, mapper, gem_id) == Some(c) {
                    let g = choose|gem_id: u16| #[trigger] spec_mapper_path(s, mapper, gem_id) == Some(c);
                    assert(spec_mapper_fold(s, mapper, g, 8) is Some);
                    let k = choose|k: int| 0 <= k < paths@.len() && (#[trigger] paths@[k]).gem_id == g;
                    assert(paths@[k] == c);
                }
            }
        }
        paths
    }
}

impl Mib {
    /// The paths of bridge port `bridge` (before VLAN filtering).
    fn bridge_paths(&self, bridge: u16) -> (paths: Vec<DataPathCandidate>)
        ensures
            forall|c: DataPathCandidate| #[trigger] paths@.contains(c) <==> is_bridge_path(self@.entities, bridge, c),
    {
        let tp_type = self.attr_byte_of(CLASS_MAC_BRIDGE_PORT_CONFIG_DATA, bridge, 3);
        let pointer = self.attr_u16_of(CLASS_MAC_BRIDGE_PORT_CONFIG_DATA, bridge, 4);
        let mut paths: Vec<DataPathCandidate> = Vec::new();
        match (tp_type, pointer) {
            (Some(3), Some(pointer)) => {
                paths = self.mapper_paths(pointer);
            },
            (Some(5), Some(pointer)) => {
                if let Some(ctp) = self.attr_u16_of(CLASS_GEM_INTERWORKING_TP, pointer, 1) {
                    if let Some(path) = self.unicast_path(ctp) {
                        paths.push(path);
                        assert(paths@ =~= seq![path]);
                    }
                }
            },
            (Some(6), Some(pointer)) => {
                if let Some(path) = self.multicast_path(pointer) {
                    paths.push(path);
                    assert(paths@ =~= seq![path]);
                }
            },
            _ => {},
        }
        proof {
            assert forall|c: DataPathCandidate| #[trigger] paths@.contains(c) <==> is_bridge_path(self@.entities, bridge, c) by {
                if paths@.len() == 1 {
                    if c == paths@[0] {
                        assert(paths@.contains(c));
                    }
                }
            }
        }
        paths
    }

    /// The paths the VLAN filter of bridge port `bridge` selects from its paths.
    #[verifier::spinoff_prover]
    fn selected_paths(&self, bridge: u16, paths: &Vec<DataPathCandidate>) -> (selected: Vec<DataPathCandidate>)
        requires
            forall|c: DataPathCandidate| #[trigger] paths@.contains(c) <==> is_bridge_path(self@.entities, bridge, c),
        ensures
            forall|c: DataPathCandidate| #[trigger] selected@.contains(c) <==> is_selected_path(self@.entities, bridge, c),
    {
        let ghost s = self@.entities;
        let mut selected: Vec<DataPathCandidate> = Vec::new();
        let list = match self.attr_value_of(CLASS_VLAN_TAGGING_FILTER, bridge, 1) {
            Some(list) => list,
            None => return selected,
        };
        let operation = match self.attr_byte_of(CLASS_VLAN_TAGGING_FILTER, bridge, 2) {
            Some(o) => o,
            None => 0,
        };
        let raw_count = match self.attr_byte_of(CLASS_VLAN_TAGGING_FILTER, bridge, 3) {
            Some(c) => c,
            None => 0,
        };
        let count: usize = if raw_count > 12 { 12 } else { raw_count as usize };
        assert(count == filter_count(s, bridge));
        assert(operation == filter_operation(s, bridge));
        let mut i: usize = 0;
        while i < count && 2 * i + 2 <= list.len()
            invariant
                i <= count <= 12,
                s == self@.entities,
                count == filter_count(s, bridge),
                operation == filter_operation(s, bridge),
                attr_value(s, CLASS_VLAN_TAGGING_FILTER, bridge, 1) == Some(list@),
                forall|c: DataPathCandidate| #[trigger] paths@.contains(c) <==> is_bridge_path(s, bridge, c),
                forall|c: DataPathCandidate| #[trigger] selected@.contains(c) <==> exists|e: int, path: DataPathCandidate|
                    0 <= e < i && 2 * e + 2 <= list@.len() && is_bridge_path(s, bridge, path)
                        && #[trigger] is_filtered_path(operation, filter_tci(list@, e), path, c),
            decreases count - i,
        {
            let tci = (list[2 * i] as u16) * 256 + list[2 * i + 1] as u16;
            assert(tci == filter_tci(list@, i as int));
            let mut q: usize = 0;
            while q < paths.len()
                invariant
                    q <= paths.len(),
                    i < count,
                    2 * i + 2 <= list@.len(),
                    tci == filter_tci(list@, i as int),
                    forall|c: DataPathCandidate| #[trigger] paths@.contains(c) <==> is_bridge_path(s, bridge, c),
                    forall|c: DataPathCandidate| #[trigger] selected@.contains(c) <==> (exists|e: int, path: DataPathCandidate|
                        0 <= e < i && 2 * e + 2 <= list@.len() && is_bridge_path(s, bridge, path)
                            && #[trigger] is_filtered_path(operation, filter_tci(list@, e), path, c))
                        || (exists|k: int| 0 <= k < q && #[trigger] is_filtered_path(operation, tci, paths@[k], c)),
                decreases paths.len() - q,
            {
                let ghost before = selected@;
                if let Some(c) = filtered_path(operation, tci, paths[q]) {
                    selected.push(c);
                    proof {
                        assert forall|d: DataPathCandidate| #[trigger] selected@.contains(d) <==> (exists|e: int, path: DataPathCandidate|
                            0 <= e < i && 2 * e + 2 <= list@.len() && is_bridge_path(s, bridge, path)
                                && #[trigger] is_filtered_path(operation, filter_tci(list@, e), path, d))
                            || (exists|k: int| 0 <= k < q + 1 && #[trigger] is_filtered_path(operation, tci, paths@[k], d)) by {
                            if d == c {
                                assert(selected@[before.len() as int] == c);
                                assert(is_filtered_path(operation, tci, paths@[q as int], d));
                            }
                            if before.contains(d) {
                                let m = choose|m: int| 0 <= m < before.len() && before[m] == d;
                                assert(selected@[m] == d);
                            }
                            if selected@.contains(d) && d != c {
                                let m = choose|m: int| 0 <= m < selected@.len() && selected@[m] == d;
                                assert(before[m] == d);
                            }
                            if exists|k: int| 0 <= k < q + 1 && #[trigger] is_filtered_path(operation, tci, paths@[k], d) {
                                let k = choose|k: int| 0 <= k < q + 1 && #[trigger] is_filtered_path(operation, tci, paths@[k], d);
                                if k == q {
                                    assert(d == c);
                                }
                            }
                        }
                    }
                } else {
                    proof {
                        assert forall|d: DataPathCandidate| #[trigger] selected@.contains(d) <==> (exists|e: int, path: DataPathCandidate|
                            0 <= e < i && 2 * e + 2 <= list@.len() && is_bridge_path(s, bridge, path)
                                && #[trigger] is_filtered_path(operation, filter_tci(list@, e), path, d))
                            || (exists|k: int| 0 <= k < q + 1 && #[trigger] is_filtered_path(operation, tci, paths@[k], d)) by {
                            if exists|k: int| 0 <= k < q + 1 && #[trigger] is_filtered_path(operation, tci, paths@[k], d) {
                                let k = choose|k: int| 0 <= k < q + 1 && #[trigger] is_filtered_path(operation, tci, paths@[k], d);
                                assert(k != q);
                            }
                        }
                    }
                }
                q += 1;
            }
            proof {
                assert forall|d: DataPathCandidate| #[trigger] selected@.contains(d) <==> exists|e: int, path: DataPathCandidate|
                    0 <= e < i + 1 && 2 * e + 2 <= list@.len() && is_bridge_path(s, bridge, path)
                        && #[trigger] is_filtered_path(operation, filter_tci(list@, e), path, d) by {
                    if exists|k: int| 0 <= k < paths@.len() && #[trigger] is_filtered_path(operation, tci, paths@[k], d) {
                        let k = choose|k: int| 0 <= k < paths@.len() && #[trigger] is_filtered_path(operation, tci, paths@[k], d);
                        assert(paths@.contains(paths@[k]));
                        assert(is_bridge_path(s, bridge, paths@[k]));
                        assert(is_filtered_path(operation, filter_tci(list@, i as int), paths@[k], d));
                    }
                    if exists|e: int, path: DataPathCandidate| 0 <= e < i + 1 && 2 * e + 2 <= list@.len() && is_bridge_path(s, bridge, path)
                        && #[trigger] is_filtered_path(operation, filter_tci(list@, e), path, d) {
                        let (e, path) = choose|e: int, path: DataPathCandidate| 0 <= e < i + 1 && 2 * e + 2 <= list@.len()
                            && is_bridge_path(s, bridge, path) && #[trigger] is_filtered_path(operation, filter_tci(list@, e), path, d);
                        if e == i {
                            assert(paths@.contains(path));
                            let k = choose|k: int| 0 <= k < paths@.len() && paths@[k] == path;
                            assert(is_filtered_path(operation, tci, paths@[k], d));
                        }
                    }
                }
            }
            i += 1;
        }
        proof {
            assert(super::provisioning::filter_list(s, bridge) == list@);
            assert forall|c: DataPathCandidate| #[trigger] selected@.contains(c) <==> is_selected_path(s, bridge, c) by {
                if selected@.contains(c) {
                    let (e, path) = choose|e: int, path: DataPathCandidate| 0 <= e < i && 2 * e + 2 <= list@.len()
                        && is_bridge_path(s, bridge, path) && #[trigger] is_filtered_path(operation, filter_tci(list@, e), path, c);
                    super::provisioning::lemma_selected_intro(s, bridge, list@, e, path, c);
                }
                if exists|e: int, path: DataPathCandidate| 0 <= e < filter_count(s, bridge) && 2 * e + 2 <= list@.len()
                    && is_bridge_path(s, bridge, path) && #[trigger] is_filtered_path(filter_operation(s, bridge), filter_tci(list@, e), path, c) {
                    let (e, path) = choose|e: int, path: DataPathCandidate| 0 <= e < filter_count(s, bridge) && 2 * e + 2 <= list@.len()
                        && is_bridge_path(s, bridge, path) && #[trigger] is_filtered_path(filter_operation(s, bridge), filter_tci(list@, e), path, c);
                    assert(e < i);
                    assert(selected@.contains(c));
                }
            }
        }
        selected
    }
}

/// An instance of a sorted list is what its key finds.
proof fn lemma_record_lookup(s: Seq<RecordView>, j: int)
    requires
        sorted_by(s, record_key(), pair_lt()),
        0 <= j < s.len(),
    ensures
        entity_of(s, s[j].class_id, s[j].entity_id) == Some(s[j]),
{
    lemma_pair_order();
    lemma_lookup_sorted(s, j, record_key(), pair_lt());
}

/// What a key finds is an instance of the list with that key.
proof fn lemma_found_record(s: Seq<RecordView>, class_id: u16, entity_id: u16)
    ensures
        entity_of(s, class_id, entity_id) matches Some(r) ==> exists|j: int| 0 <= j < s.len() && #[trigger] s[j] == r
            && r.class_id == class_id && r.entity_id == entity_id,
{
    super::sorted::lemma_lookup_found(s, (class_id, entity_id), record_key());
}

/// Whether some multicast path of `set` carries GEM `gem_id`.
fn carries_multicast_gem(set: &Vec<DataPathCandidate>, gem_id: u16) -> (found: bool)
    ensures
        found == exists|k: int| 0 <= k < set@.len() && (#[trigger] set@[k]).multicast && set@[k].gem_id == gem_id,
{
    let mut k: usize = 0;
    while k < set.len()
        invariant
            k <= set.len(),
            forall|l: int| 0 <= l < k ==> !((#[trigger] set@[l]).multicast && set@[l].gem_id == gem_id),
        decreases set.len() - k,
    {
        if set[k].multicast && set[k].gem_id == gem_id {
            return true;
        }
        k += 1;
    }
    false
}

/// Whether some path of `set` is unicast.
fn has_unicast(set: &Vec<DataPathCandidate>) -> (found: bool)
    ensures
        found == exists|k: int| 0 <= k < set@.len() && !(#[trigger] set@[k]).multicast,
{
    let mut k: usize = 0;
    while k < set.len()
        invariant
            k <= set.len(),
            forall|l: int| 0 <= l < k ==> (#[trigger] set@[l]).multicast,
        decreases set.len() - k,
    {
        if !set[k].multicast {
            return true;
        }
        k += 1;
    }
    false
}

/// Adds every path of `paths` to `set`.
fn insert_all(set: &mut Vec<DataPathCandidate>, paths: &Vec<DataPathCandidate>)
    requires
        set_candidates(old(set)@),
    ensures
        set_candidates(final(set)@),
        forall|c: DataPathCandidate| #[trigger] final(set)@.contains(c) <==> (old(set)@.contains(c) || paths@.contains(c)),
{
    let ghost start = set@;
    let mut k: usize = 0;
    while k < paths.len()
        invariant
            k <= paths.len(),
            set_candidates(set@),
            forall|c: DataPathCandidate| #[trigger] set@.contains(c) <==> (start.contains(c) || exists|l: int| 0 <= l < k && paths@[l] == c),
        decreases paths.len() - k,
    {
        let ghost before = set@;
        insert_candidate(set, paths[k]);
        proof {
            assert forall|c: DataPathCandidate| #[trigger] set@.contains(c) <==> (start.contains(c) || exists|l: int| 0 <= l < k + 1 && paths@[l] == c) by {
                if exists|l: int| 0 <= l < k + 1 && paths@[l] == c {
                    let l = choose|l: int| 0 <= l < k + 1 && paths@[l] == c;
                    if l < k {
                        assert(before.contains(c));
                    }
                }
            }
        }
        k += 1;
    }
    proof {
        assert forall|c: DataPathCandidate| #[trigger] set@.contains(c) <==> (start.contains(c) || paths@.contains(c)) by {
            if paths@.contains(c) {
                let l = choose|l: int| 0 <= l < paths@.len() && paths@[l] == c;
                assert(exists|l: int| 0 <= l < k && paths@[l] == c);
            }
        }
    }
}

impl Mib {
    /// The paths bridge port `bridge` gives.
    fn bridge_result(&self, bridge: u16) -> (paths: Vec<DataPathCandidate>)
        requires
            entity_of(self@.entities, CLASS_MAC_BRIDGE_PORT_CONFIG_DATA, bridge) is Some,
        ensures
            forall|c: DataPathCandidate| #[trigger] paths@.contains(c) <==> is_bridge_result(self@.entities, bridge, c),
    {
        let ghost s = self@.entities;
        let paths = self.bridge_paths(bridge);
        let selected = self.selected_paths(bridge, &paths);
        proof {
            if selected@.len() > 0 {
                assert(selected@.contains(selected@[0]));
                assert(is_selected_path(s, bridge, selected@[0]));
            }
            if filter_selects(s, bridge) {
                let c = choose|c: DataPathCandidate| #[trigger] is_selected_path(s, bridge, c);
                assert(selected@.contains(c));
            }
        }
        if selected.len() > 0 {
            selected
        } else {
            paths
        }
    }

    /// The data paths: every path the MIB's entities give, in increasing order, each once.
    fn data_paths(&self) -> (paths: Vec<DataPathCandidate>)
        requires
            self.wf(),
        ensures
            set_candidates(paths@),
            forall|c: DataPathCandidate| #[trigger] paths@.contains(c) <==> is_data_path(self@.entities, c),
    {
        let ghost s = self@.entities;
        let mut service: Vec<DataPathCandidate> = Vec::new();
        let mut j: usize = 0;
        while j < self.entities.len()
            invariant
                j <= self.entities.len(),
                s == self@.entities,
                self.wf(),
                set_candidates(service@),
                forall|c: DataPathCandidate| #[trigger] service@.contains(c) <==> exists|k: int| 0 <= k < j
                    && (#[trigger] s[k]).class_id == CLASS_MAC_BRIDGE_PORT_CONFIG_DATA && is_bridge_result(s, s[k].entity_id, c),
            decreases self.entities.len() - j,
        {
            assert(s[j as int] == self.entities@[j as int]@);
            if self.entities[j].class_id == CLASS_MAC_BRIDGE_PORT_CONFIG_DATA {
                let bridge = self.entities[j].entity_id;
                proof {
                    lemma_record_lookup(s, j as int);
                }
                let result = self.bridge_result(bridge);
                let ghost before = service@;
                insert_all(&mut service, &result);
                proof {
                    assert forall|c: DataPathCandidate| #[trigger] service@.contains(c) <==> exists|k: int| 0 <= k < j + 1
                        && (#[trigger] s[k]).class_id == CLASS_MAC_BRIDGE_PORT_CONFIG_DATA && is_bridge_result(s, s[k].entity_id, c) by {
                        if exists|k: int| 0 <= k < j + 1 && (#[trigger] s[k]).class_id == CLASS_MAC_BRIDGE_PORT_CONFIG_DATA
                            && is_bridge_result(s, s[k].entity_id, c) {
                            let k = choose|k: int| 0 <= k < j + 1 && (#[trigger] s[k]).class_id == CLASS_MAC_BRIDGE_PORT_CONFIG_DATA
                                && is_bridge_result(s, s[k].entity_id, c);
                            if k < j {
                                assert(before.contains(c));
                            } else {
                                assert(result@.contains(c));
                            }
                        }
                    }
                }
            } else {
                proof {
                    assert forall|c: DataPathCandidate| #[trigger] service@.contains(c) <==> exists|k: int| 0 <= k < j + 1
                        && (#[trigger] s[k]).class_id == CLASS_MAC_BRIDGE_PORT_CONFIG_DATA && is_bridge_result(s, s[k].entity_id, c) by {
                        if exists|k: int| 0 <= k < j + 1 && (#[trigger] s[k]).class_id == CLASS_MAC_BRIDGE_PORT_CONFIG_DATA
                            && is_bridge_result(s, s[k].entity_id, c) {
                            let k = choose|k: int| 0 <= k < j + 1 && (#[trigger] s[k]).class_id == CLASS_MAC_BRIDGE_PORT_CONFIG_DATA
                                && is_bridge_result(s, s[k].entity_id, c);
                            assert(k < j);
                        }
                    }
                }
            }
            j += 1;
        }
        proof {
            assert forall|c: DataPathCandidate| #[trigger] service@.contains(c) <==> is_bridge_data_path(s, c) by {
                if is_bridge_data_path(s, c) {
                    let b = choose|b: u16| #[trigger] is_bridge_result(s, b, c);
                    lemma_found_record(s, CLASS_MAC_BRIDGE_PORT_CONFIG_DATA, b);
                    let r = entity_of(s, CLASS_MAC_BRIDGE_PORT_CONFIG_DATA, b).unwrap();
                    let k = choose|k: int| 0 <= k < s.len() && #[trigger] s[k] == r && r.class_id == CLASS_MAC_BRIDGE_PORT_CONFIG_DATA
                        && r.entity_id == b;
                    assert(s[k].class_id == CLASS_MAC_BRIDGE_PORT_CONFIG_DATA && is_bridge_result(s, s[k].entity_id, c));
                }
                if service@.contains(c) {
                    let k = choose|k: int| 0 <= k < j && (#[trigger] s[k]).class_id == CLASS_MAC_BRIDGE_PORT_CONFIG_DATA
                        && is_bridge_result(s, s[k].entity_id, c);
                    assert(is_bridge_result(s, s[k].entity_id, c));
                }
            }
        }
        let unicast = has_unicast(&service);
        proof {
            if unicast {
                let k = choose|k: int| 0 <= k < service@.len() && !(#[trigger] service@[k]).multicast;
                assert(service@.contains(service@[k]));
                assert(is_bridge_data_path(s, service@[k]));
            }
            if bridges_give_unicast(s) {
                let c = choose|c: DataPathCandidate| #[trigger] is_bridge_data_path(s, c) && !c.multicast;
                assert(service@.contains(c));
                let k = choose|k: int| 0 <= k < service@.len() && service@[k] == c;
                assert(!service@[k].multicast);
            }
        }
        if !unicast {
            let mut j: usize = 0;
            let ghost bridged = service@;
            while j < self.entities.len()
                invariant
                    j <= self.entities.len(),
                    s == self@.entities,
                    self.wf(),
                    !bridges_give_unicast(s),
                    set_candidates(service@),
                    forall|c: DataPathCandidate| #[trigger] bridged.contains(c) <==> is_bridge_data_path(s, c),
                    forall|c: DataPathCandidate| #[trigger] service@.contains(c) <==> bridged.contains(c) || exists|k: int, g: u16| 0 <= k < j
                        && (#[trigger] s[k]).class_id == CLASS_IEEE_8021P_MAPPER && #[trigger] spec_mapper_path(s, s[k].entity_id, g) == Some(c),
                decreases self.entities.len() - j,
            {
                assert(s[j as int] == self.entities@[j as int]@);
                let ghost before = service@;
                if self.entities[j].class_id == CLASS_IEEE_8021P_MAPPER {
                    let mapper = self.entities[j].entity_id;
                    let paths = self.mapper_paths(mapper);
                    insert_all(&mut service, &paths);
                }
                proof {
                    assert forall|c: DataPathCandidate| #[trigger] service@.contains(c) <==> bridged.contains(c) || exists|k: int, g: u16| 0 <= k < j + 1
                        && (#[trigger] s[k]).class_id == CLASS_IEEE_8021P_MAPPER && #[trigger] spec_mapper_path(s, s[k].entity_id, g) == Some(c) by {
                        if exists|k: int, g: u16| 0 <= k < j + 1 && (#[trigger] s[k]).class_id == CLASS_IEEE_8021P_MAPPER
                            && #[trigger] spec_mapper_path(s, s[k].entity_id, g) == Some(c) {
                            let (k, g) = choose|k: int, g: u16| 0 <= k < j + 1 && (#[trigger] s[k]).class_id == CLASS_IEEE_8021P_MAPPER
                                && #[trigger] spec_mapper_path(s, s[k].entity_id, g) == Some(c);
                            if k < j {
                                assert(before.contains(c));
                            }
                        }
                        if service@.contains(c) && !before.contains(c) {
                            assert(spec_mapper_path(s, s[j as int].entity_id, c.gem_id) == Some(c) || exists|g: u16| #[trigger] spec_mapper_path(s, s[j as int].entity_id, g) == Some(c));
                        }
                    }
                }
                j += 1;
            }
            proof {
                assert forall|c: DataPathCandidate| #[trigger] service@.contains(c) <==> is_service_path(s, c) by {
                    if is_mapper_path(s, c) {
                        let (m, g) = choose|m: u16, g: u16| #[trigger] spec_mapper_path(s, m, g) == Some(c);
                        lemma_found_record(s, CLASS_IEEE_8021P_MAPPER, m);
                        let r = entity_of(s, CLASS_IEEE_8021P_MAPPER, m).unwrap();
                        let k = choose|k: int| 0 <= k < s.len() && #[trigger] s[k] == r && r.class_id == CLASS_IEEE_8021P_MAPPER && r.entity_id == m;
                        assert(s[k].class_id == CLASS_IEEE_8021P_MAPPER && spec_mapper_path(s, s[k].entity_id, g) == Some(c));
                    }
                    if service@.contains(c) && !bridged.contains(c) {
                        let (k, g) = choose|k: int, g: u16| 0 <= k < j && (#[trigger] s[k]).class_id == CLASS_IEEE_8021P_MAPPER
                            && #[trigger] spec_mapper_path(s, s[k].entity_id, g) == Some(c);
                        assert(is_mapper_path(s, c));
                    }
                }
            }
        } else {
            proof {
                assert forall|c: DataPathCandidate| #[trigger] service@.contains(c) <==> is_service_path(s, c) by {}
            }
        }
        let mut all = Vec::new();
        insert_all(&mut all, &service);
        let mut j: usize = 0;
        while j < self.entities.len()
            invariant
                j <= self.entities.len(),
                s == self@.entities,
                self.wf(),
                set_candidates(all@),
                forall|c: DataPathCandidate| #[trigger] service@.contains(c) <==> is_service_path(s, c),
                forall|c: DataPathCandidate| #[trigger] all@.contains(c) <==> is_service_path(s, c) || exists|k: int| 0 <= k < j
                    && (#[trigger] s[k]).class_id == CLASS_MULTICAST_GEM_INTERWORKING_TP && spec_multicast(s, s[k].entity_id) == Some(c)
                    && !(exists|d: DataPathCandidate| #[trigger] is_service_path(s, d) && d.multicast && d.gem_id == c.gem_id),
            decreases self.entities.len() - j,
        {
            assert(s[j as int] == self.entities@[j as int]@);
            let ghost before = all@;
            if self.entities[j].class_id == CLASS_MULTICAST_GEM_INTERWORKING_TP {
                if let Some(path) = self.multicast_path(self.entities[j].entity_id) {
                    let carried = carries_multicast_gem(&service, path.gem_id);
                    proof {
                        if carried {
                            let k = choose|k: int| 0 <= k < service@.len() && (#[trigger] service@[k]).multicast && service@[k].gem_id == path.gem_id;
                            assert(service@.contains(service@[k]));
                        }
                        if exists|d: DataPathCandidate| #[trigger] is_service_path(s, d) && d.multicast && d.gem_id == path.gem_id {
                            let d = choose|d: DataPathCandidate| #[trigger] is_service_path(s, d) && d.multicast && d.gem_id == path.gem_id;
                            assert(service@.contains(d));
                            let k = choose|k: int| 0 <= k < service@.len() && service@[k] == d;
                            assert(service@[k].multicast && service@[k].gem_id == path.gem_id);
                        }
                    }
                    if !carried {
                        insert_candidate(&mut all, path);
                    }
                }
            }
            proof {
                assert forall|c: DataPathCandidate| #[trigger] all@.contains(c) <==> is_service_path(s, c) || exists|k: int| 0 <= k < j + 1
                    && (#[trigger] s[k]).class_id == CLASS_MULTICAST_GEM_INTERWORKING_TP && spec_multicast(s, s[k].entity_id) == Some(c)
                    && !(exists|d: DataPathCandidate| #[trigger] is_service_path(s, d) && d.multicast && d.gem_id == c.gem_id) by {
                    if exists|k: int| 0 <= k < j + 1 && (#[trigger] s[k]).class_id == CLASS_MULTICAST_GEM_INTERWORKING_TP
                        && spec_multicast(s, s[k].entity_id) == Some(c)
                        && !(exists|d: DataPathCandidate| #[trigger] is_service_path(s, d) && d.multicast && d.gem_id == c.gem_id) {
                        let k = choose|k: int| 0 <= k < j + 1 && (#[trigger] s[k]).class_id == CLASS_MULTICAST_GEM_INTERWORKING_TP
                            && spec_multicast(s, s[k].entity_id) == Some(c)
                            && !(exists|d: DataPathCandidate| #[trigger] is_service_path(s, d) && d.multicast && d.gem_id == c.gem_id);
                        if k < j {
                            assert(before.contains(c));
                        }
                    }
                }
            }
            j += 1;
        }
        proof {
            assert forall|c: DataPathCandidate| #[trigger] all@.contains(c) <==> is_data_path(s, c) by {
                if (exists|iwtp: u16| #[trigger] spec_multicast(s, iwtp) == Some(c))
                    && !(exists|d: DataPathCandidate| #[trigger] is_service_path(s, d) && d.multicast && d.gem_id == c.gem_id) {
                    let iwtp = choose|iwtp: u16| #[trigger] spec_multicast(s, iwtp) == Some(c);
                    lemma_found_record(s, CLASS_MULTICAST_GEM_INTERWORKING_TP, iwtp);
                    let r = entity_of(s, CLASS_MULTICAST_GEM_INTERWORKING_TP, iwtp).unwrap();
                    let k = choose|k: int| 0 <= k < s.len() && #[trigger] s[k] == r && r.class_id == CLASS_MULTICAST_GEM_INTERWORKING_TP
                        && r.entity_id == iwtp;
                    assert(s[k].class_id == CLASS_MULTICAST_GEM_INTERWORKING_TP && spec_multicast(s, s[k].entity_id) == Some(c));
                }
                if all@.contains(c) && !is_service_path(s, c) {
                    let k = choose|k: int| 0 <= k < j && (#[trigger] s[k]).class_id == CLASS_MULTICAST_GEM_INTERWORKING_TP
                        && spec_multicast(s, s[k].entity_id) == Some(c)
                        && !(exists|d: DataPathCandidate| #[trigger] is_service_path(s, d) && d.multicast && d.gem_id == c.gem_id);
                    assert(spec_multicast(s, s[k].entity_id) == Some(c));
                }
            }
        }
        all
    }
}

/// One more element of a prefix passes the filter or not.
proof fn lemma_filter_step(s: Seq<RecordView>, j: int, pred: spec_fn(RecordView) -> bool)
    requires
        0 <= j < s.len(),
    ensures
        s.take(j + 1).filter(pred) == if pred(s[j]) { s.take(j).filter(pred).push(s[j]) } else { s.take(j).filter(pred) },
{
    reveal(Seq::filter);
    assert(s.take(j + 1).drop_last() =~= s.take(j));
    assert(s.take(j + 1).last() == s[j]);
}

proof fn lemma_rule_sum_step(s: Seq<RecordView>, j: int)
    requires
        0 <= j < s.len(),
    ensures
        spec_vlan_rule_sum(s.take(j + 1)) == spec_vlan_rule_sum(s.take(j)) + record_vlan_rules(s[j]),
{
    assert(s.take(j + 1).drop_last() =~= s.take(j));
    assert(s.take(j + 1).last() == s[j]);
}

impl EntityRecord {
    fn tcont_configured(&self) -> (configured: bool)
        ensures
            configured == tcont_configured(self@),
    {
        if self.class_id != CLASS_TCONT {
            return false;
        }
        match self.entity.attribute(1) {
            Some(a) => match be_u16(a.value().as_slice()) {
                Some(alloc) => alloc != 0xffff,
                None => false,
            },
            None => false,
        }
    }

    fn vlan_rules(&self) -> (rules: usize)
        ensures
            rules == record_vlan_rules(self@),
    {
        if self.class_id == CLASS_EXTENDED_VLAN_TAGGING {
            match self.entity.attribute(6) {
                Some(a) => a.row_count(),
                None => 0,
            }
        } else if self.class_id == CLASS_VLAN_TAGGING_FILTER {
            let count: u8 = match self.entity.attribute(3) {
                Some(a) => if a.value().len() > 0 { a.value()[0] } else { 0 },
                None => 0,
            };
            if count > 12 { 12 } else { count as usize }
        } else {
            0
        }
    }
}

impl Mib {
    /// Configured T-CONTs, GEM ports, GEM interworking points, and VLAN rules
    /// (saturating at the largest `usize`).
    fn snapshot_counts(&self) -> (counts: (usize, usize, usize, usize))
        ensures
            counts.0 == self@.entities.filter(tcont_filter()).len(),
            counts.1 == self@.entities.filter(gem_port_filter()).len(),
            counts.2 == self@.entities.filter(interworking_tp_filter()).len(),
            counts.3 == if spec_vlan_rule_sum(self@.entities) > usize::MAX { usize::MAX as nat } else { spec_vlan_rule_sum(self@.entities) },
    {
        let ghost s = self@.entities;
        let mut tconts: usize = 0;
        let mut gem_ports: usize = 0;
        let mut interworking: usize = 0;
        let mut rules: usize = 0;
        let mut j: usize = 0;
        proof {
            reveal(Seq::filter);
            assert(s.take(0) =~= Seq::<RecordView>::empty());
        }
        while j < self.entities.len()
            invariant
                j <= self.entities.len(),
                s == self@.entities,
                tconts == s.take(j as int).filter(tcont_filter()).len(),
                gem_ports == s.take(j as int).filter(gem_port_filter()).len(),
                interworking == s.take(j as int).filter(interworking_tp_filter()).len(),
                rules == if spec_vlan_rule_sum(s.take(j as int)) > usize::MAX { usize::MAX as nat } else { spec_vlan_rule_sum(s.take(j as int)) },
                tconts <= j && gem_ports <= j && interworking <= j,
            decreases self.entities.len() - j,
        {
            let record = &self.entities[j];
            assert(s[j as int] == record@);
            proof {
                lemma_filter_step(s, j as int, tcont_filter());
                lemma_filter_step(s, j as int, gem_port_filter());
                lemma_filter_step(s, j as int, interworking_tp_filter());
                lemma_rule_sum_step(s, j as int);
            }
            if record.tcont_configured() {
                tconts += 1;
            }
            if record.class_id == CLASS_GEM_PORT_NETWORK_CTP {
                gem_ports += 1;
            }
            if record.class_id == CLASS_GEM_INTERWORKING_TP || record.class_id == CLASS_MULTICAST_GEM_INTERWORKING_TP {
                interworking += 1;
            }
            let more = record.vlan_rules();
            rules = if rules > usize::MAX - more { usize::MAX } else { rules + more };
            j += 1;
        }
        assert(s.take(j as int) =~= s);
        (tconts, gem_ports, interworking, rules)
    }
}

/// VID field `k` of a sixteen-byte extended VLAN tagging row.
fn extended_vid_of(row: &[u8], k: usize) -> (vid: u16)
    requires
        row@.len() == 16,
        k < 4,
    ensures
        vid == extended_vid(row@, k as int),
{
    let o = 4 * k;
    let word: u32 = (row[o] as u32) * 0x1000000 + (row[o + 1] as u32) * 0x10000 + (row[o + 2] as u32) * 0x100 + row[o + 3] as u32;
    assert(word == row_word(row@, k as int));
    if k < 2 { ((word >> 15) & 0x1fff) as u16 } else { ((word >> 3) & 0x1fff) as u16 }
}

/// The VID of a multicast access control row, where it is one.
fn acl_vid_of(row: &[u8]) -> (vid: Option<u16>)
    ensures
        vid == acl_row_vid(row@),
{
    if row.len() == 24 {
        let vid = ((row[4] as u16) * 256 + row[5] as u16) & 0x0fff;
        if 1 <= vid && vid <= 4094 { Some(vid) } else { None }
    } else {
        None
    }
}

/// Adds the VIDs of one extended VLAN tagging row.
fn insert_row_vids(set: &mut Vec<u16>, row: &[u8])
    requires
        set_u16(old(set)@),
    ensures
        set_u16(final(set)@),
        forall|v: u16| #[trigger] final(set)@.contains(v) <==> (old(set)@.contains(v) || row_gives_vid(row@, v)),
{
    if row.len() != 16 {
        return;
    }
    let ghost start = set@;
    let mut k: usize = 0;
    while k < 4
        invariant
            k <= 4,
            row@.len() == 16,
            set_u16(set@),
            forall|v: u16| #[trigger] set@.contains(v) <==> (start.contains(v) || (vid_valid(v)
                && exists|m: int| 0 <= m < k && extended_vid(row@, m) == v)),
        decreases 4 - k,
    {
        let vid = extended_vid_of(row, k);
        let ghost before = set@;
        if 1 <= vid && vid <= 4094 {
            insert_u16(set, vid);
        }
        proof {
            assert forall|v: u16| #[trigger] set@.contains(v) <==> (start.contains(v) || (vid_valid(v)
                && exists|m: int| 0 <= m < k + 1 && extended_vid(row@, m) == v)) by {
                if vid_valid(v) && exists|m: int| 0 <= m < k + 1 && extended_vid(row@, m) == v {
                    let m = choose|m: int| 0 <= m < k + 1 && extended_vid(row@, m) == v;
                    if m < k {
                        assert(before.contains(v));
                    }
                }
                if set@.contains(v) && !before.contains(v) {
                    assert(extended_vid(row@, k as int) == v);
                }
            }
        }
        k += 1;
    }
    proof {
        assert forall|v: u16| #[trigger] set@.contains(v) <==> (start.contains(v) || row_gives_vid(row@, v)) by {
            if row_gives_vid(row@, v) {
                if extended_vid(row@, 0) == v {} else if extended_vid(row@, 1) == v {} else if extended_vid(row@, 2) == v {
                } else {
                    assert(extended_vid(row@, 3) == v);
                }
            }
            if set@.contains(v) && !start.contains(v) {
                let m = choose|m: int| 0 <= m < 4 && extended_vid(row@, m) == v;
                if m == 0 {} else if m == 1 {} else if m == 2 {} else {}
            }
        }
    }
}

/// Adds the VIDs of the access control rows of table attribute `index` of a profile.
fn insert_acl_vids(set: &mut Vec<u16>, profile: &ManagedEntity, index: u8)
    requires
        set_u16(old(set)@),
    ensures
        set_u16(final(set)@),
        forall|v: u16| #[trigger] final(set)@.contains(v) <==> (old(set)@.contains(v)
            || (attribute_of(profile@, index) matches Some(a) && exists|i: int| 0 <= i < a.rows.len() && acl_row_vid(#[trigger] a.rows[i].1) == Some(v))),
{
    let attribute = match profile.attribute(index) {
        Some(a) => a,
        None => return,
    };
    let rows = attribute.rows();
    let ghost start = set@;
    let ghost rv = attribute@.rows;
    let mut i: usize = 0;
    while i < rows.len()
        invariant
            i <= rows.len(),
            rv == super::entity::rows_view(rows@),
            rv == attribute@.rows,
            attribute_of(profile@, index) == Some(attribute@),
            set_u16(set@),
            forall|v: u16| #[trigger] set@.contains(v) <==> (start.contains(v)
                || exists|m: int| 0 <= m < i && acl_row_vid(#[trigger] rv[m].1) == Some(v)),
        decreases rows.len() - i,
    {
        assert(rv[i as int].1 == rows@[i as int].value@);
        let ghost before = set@;
        if let Some(vid) = acl_vid_of(rows[i].value.as_slice()) {
            insert_u16(set, vid);
        }
        proof {
            assert forall|v: u16| #[trigger] set@.contains(v) <==> (start.contains(v)
                || exists|m: int| 0 <= m < i + 1 && acl_row_vid(#[trigger] rv[m].1) == Some(v)) by {
                if exists|m: int| 0 <= m < i + 1 && acl_row_vid(#[trigger] rv[m].1) == Some(v) {
                    let m = choose|m: int| 0 <= m < i + 1 && acl_row_vid(#[trigger] rv[m].1) == Some(v);
                    if m < i {
                        assert(before.contains(v));
                    }
                }
                if set@.contains(v) && !before.contains(v) {
                    assert(acl_row_vid(rv[i as int].1) == Some(v));
                }
            }
        }
        i += 1;
    }
}

impl Mib {
    /// The VIDs the extended VLAN tagging operation tables name.
    fn extended_vlan_ids(&self, set: &mut Vec<u16>)
        requires
            set_u16(old(set)@),
        ensures
            set_u16(final(set)@),
            forall|v: u16| #[trigger] final(set)@.contains(v) <==> (old(set)@.contains(v)
                || exists|j: int| 0 <= j < self@.entities.len() && record_gives_vid(#[trigger] self@.entities[j], v)),
    {
        let ghost s = self@.entities;
        let ghost start = set@;
        let mut j: usize = 0;
        while j < self.entities.len()
            invariant
                j <= self.entities.len(),
                s == self@.entities,
                set_u16(set@),
                forall|v: u16| #[trigger] set@.contains(v) <==> (start.contains(v)
                    || exists|k: int| 0 <= k < j && record_gives_vid(#[trigger] s[k], v)),
            decreases self.entities.len() - j,
        {
            let record = &self.entities[j];
            assert(s[j as int] == record@);
            let ghost before = set@;
            if record.class_id == CLASS_EXTENDED_VLAN_TAGGING {
                if let Some(table) = record.entity.attribute(6) {
                    let rows = table.rows();
                    let ghost rv = table@.rows;
                    let mut i: usize = 0;
                    while i < rows.len()
                        invariant
                            i <= rows.len(),
                            rv == super::entity::rows_view(rows@),
                            rv == table@.rows,
                            set_u16(set@),
                            forall|v: u16| #[trigger] set@.contains(v) <==> (before.contains(v)
                                || exists|m: int| 0 <= m < i && row_gives_vid(#[trigger] rv[m].1, v)),
                        decreases rows.len() - i,
                    {
                        assert(rv[i as int].1 == rows@[i as int].value@);
                        let ghost inner = set@;
                        insert_row_vids(set, rows[i].value.as_slice());
                        proof {
                            assert forall|v: u16| #[trigger] set@.contains(v) <==> (before.contains(v)
                                || exists|m: int| 0 <= m < i + 1 && row_gives_vid(#[trigger] rv[m].1, v)) by {
                                if exists|m: int| 0 <= m < i + 1 && row_gives_vid(#[trigger] rv[m].1, v) {
                                    let m = choose|m: int| 0 <= m < i + 1 && row_gives_vid(#[trigger] rv[m].1, v);
                                    if m < i {
                                        assert(inner.contains(v));
                                    }
                                }
                            }
                        }
                        i += 1;
                    }
                }
            }
            proof {
                assert forall|v: u16| #[trigger] set@.contains(v) <==> (start.contains(v)
                    || exists|k: int| 0 <= k < j + 1 && record_gives_vid(#[trigger] s[k], v)) by {
                    if exists|k: int| 0 <= k < j + 1 && record_gives_vid(#[trigger] s[k], v) {
                        let k = choose|k: int| 0 <= k < j + 1 && record_gives_vid(#[trigger] s[k], v);
                        if k < j {
                            assert(before.contains(v));
                        } else {
                            let a = attribute_of(s[k].attributes, 6).unwrap();
                            let i = choose|i: int| 0 <= i < a.rows.len() && row_gives_vid(#[trigger] a.rows[i].1, v);
                            assert(row_gives_vid(a.rows[i].1, v));
                        }
                    }
                    if set@.contains(v) && !before.contains(v) {
                        let a = attribute_of(s[j as int].attributes, 6).unwrap();
                        let m = choose|m: int| 0 <= m < a.rows.len() && row_gives_vid(#[trigger] a.rows[m].1, v);
                        assert(record_gives_vid(s[j as int], v));
                    }
                }
            }
            j += 1;
        }
    }

    /// Position of the multicast operations profile a subscriber configuration names.
    fn subscriber_profile_of(&self, record: &EntityRecord) -> (found: Option<usize>)
        ensures
            match found {
                Some(p) => p < self@.entities.len() && subscriber_profile(self@.entities, record@) == Some(self@.entities[p as int]),
                None => subscriber_profile(self@.entities, record@) is None,
            },
    {
        if record.class_id != CLASS_MULTICAST_SUBSCRIBER_CONFIG {
            return None;
        }
        let profile_id = match record.entity.attribute(2) {
            Some(a) => match be_u16(a.value().as_slice()) {
                Some(p) => p,
                None => return None,
            },
            None => return None,
        };
        let found = find_record(&self.entities, CLASS_MULTICAST_OPERATIONS_PROFILE, profile_id);
        if let Some(p) = found {
            assert(self@.entities[p as int] == self.entities@[p as int]@);
        }
        found
    }

    /// The multicast access control VIDs, IGMP tag controls and IGMP upstream VIDs
    /// of the profiles that subscriber configurations name.
    fn subscriber_sets(&self, acl: &mut Vec<u16>, tags: &mut Vec<u8>, igmp: &mut Vec<u16>)
        requires
            set_u16(old(acl)@),
            set_u8(old(tags)@),
            set_u16(old(igmp)@),
        ensures
            set_u16(final(acl)@),
            set_u8(final(tags)@),
            set_u16(final(igmp)@),
            forall|v: u16| #[trigger] final(acl)@.contains(v) <==> (old(acl)@.contains(v)
                || exists|j: int| 0 <= j < self@.entities.len() && record_acl_vid(self@.entities, #[trigger] self@.entities[j], v)),
            forall|t: u8| #[trigger] final(tags)@.contains(t) <==> (old(tags)@.contains(t)
                || exists|j: int| 0 <= j < self@.entities.len() && record_tag_control(self@.entities, #[trigger] self@.entities[j]) == Some(t)),
            forall|v: u16| #[trigger] final(igmp)@.contains(v) <==> (old(igmp)@.contains(v)
                || exists|j: int| 0 <= j < self@.entities.len() && record_igmp_vid(self@.entities, #[trigger] self@.entities[j]) == Some(v)),
    {
        let ghost s = self@.entities;
        let ghost acl0 = acl@;
        let ghost tags0 = tags@;
        let ghost igmp0 = igmp@;
        let mut j: usize = 0;
        while j < self.entities.len()
            invariant
                j <= self.entities.len(),
                s == self@.entities,
                set_u16(acl@),
                set_u8(tags@),
                set_u16(igmp@),
                forall|v: u16| #[trigger] acl@.contains(v) <==> (acl0.contains(v)
                    || exists|k: int| 0 <= k < j && record_acl_vid(s, #[trigger] s[k], v)),
                forall|t: u8| #[trigger] tags@.contains(t) <==> (tags0.contains(t)
                    || exists|k: int| 0 <= k < j && record_tag_control(s, #[trigger] s[k]) == Some(t)),
                forall|v: u16| #[trigger] igmp@.contains(v) <==> (igmp0.contains(v)
                    || exists|k: int| 0 <= k < j && record_igmp_vid(s, #[trigger] s[k]) == Some(v)),
            decreases self.entities.len() - j,
        {
            let record = &self.entities[j];
            assert(s[j as int] == record@);
            let ghost acl1 = acl@;
            let ghost tags1 = tags@;
            let ghost igmp1 = igmp@;
            let mut tag: Option<u8> = None;
            let mut vid: Option<u16> = None;
            if let Some(p) = self.subscriber_profile_of(record) {
                let profile = &self.entities[p].entity;
                assert(s[p as int] == self.entities@[p as int]@);
                insert_acl_vids(acl, profile, 7);
                insert_acl_vids(acl, profile, 8);
                if let Some(a) = profile.attribute(5) {
                    if a.value().len() > 0 && a.value()[0] <= 3 {
                        let t = a.value()[0];
                        tag = Some(t);
                        if t != 0 {
                            if let Some(b) = profile.attribute(4) {
                                if let Some(tci) = be_u16(b.value().as_slice()) {
                                    let v = tci & 0x0fff;
                                    if 1 <= v && v <= 4094 {
                                        vid = Some(v);
                                    }
                                }
                            }
                        }
                    }
                }
            }
            assert(tag == record_tag_control(s, s[j as int]));
            assert(vid == record_igmp_vid(s, s[j as int]));
            if let Some(t) = tag {
                insert_u8(tags, t);
            }
            if let Some(v) = vid {
                insert_u16(igmp, v);
            }
            proof {
                assert forall|v: u16| #[trigger] acl@.contains(v) <==> (acl0.contains(v)
                    || exists|k: int| 0 <= k < j + 1 && record_acl_vid(s, #[trigger] s[k], v)) by {
                    if exists|k: int| 0 <= k < j + 1 && record_acl_vid(s, #[trigger] s[k], v) {
                        let k = choose|k: int| 0 <= k < j + 1 && record_acl_vid(s, #[trigger] s[k], v);
                        if k < j {
                            assert(acl1.contains(v));
                        }
                    }
                    if acl@.contains(v) && !acl1.contains(v) {
                        assert(record_acl_vid(s, s[j as int], v));
                    }
                }
                assert forall|t: u8| #[trigger] tags@.contains(t) <==> (tags0.contains(t)
                    || exists|k: int| 0 <= k < j + 1 && record_tag_control(s, #[trigger] s[k]) == Some(t)) by {
                    if exists|k: int| 0 <= k < j + 1 && record_tag_control(s, #[trigger] s[k]) == Some(t) {
                        let k = choose|k: int| 0 <= k < j + 1 && record_tag_control(s, #[trigger] s[k]) == Some(t);
                        if k < j {
                            assert(tags1.contains(t));
                        }
                    }
                    if tags@.contains(t) && !tags1.contains(t) {
                        assert(record_tag_control(s, s[j as int]) == Some(t));
                    }
                }
                assert forall|v: u16| #[trigger] igmp@.contains(v) <==> (igmp0.contains(v)
                    || exists|k: int| 0 <= k < j + 1 && record_igmp_vid(s, #[trigger] s[k]) == Some(v)) by {
                    if exists|k: int| 0 <= k < j + 1 && record_igmp_vid(s, #[trigger] s[k]) == Some(v) {
                        let k = choose|k: int| 0 <= k < j + 1 && record_igmp_vid(s, #[trigger] s[k]) == Some(v);
                        if k < j {
                            assert(igmp1.contains(v));
                        }
                    }
                    if igmp@.contains(v) && !igmp1.contains(v) {
                        assert(record_igmp_vid(s, s[j as int]) == Some(v));
                    }
                }
            }
            j += 1;
        }
    }

    /// The broadcast key indexes of the enhanced-security instance.
    fn broadcast_key_indexes(&self) -> (indexes: Vec<u8>)
        ensures
            set_u8(indexes@),
            forall|x: u8| #[trigger] indexes@.contains(x) <==> is_broadcast_key_index(self@.entities, x),
    {
        let mut indexes: Vec<u8> = Vec::new();
        let p = match find_record(&self.entities, CLASS_ENHANCED_SECURITY_CONTROL, 0) {
            Some(p) => p,
            None => return indexes,
        };
        assert(self@.entities[p as int] == self.entities@[p as int]@);
        let table = match self.entities[p].entity.attribute(11) {
            Some(table) => table,
            None => return indexes,
        };
        let rows = table.rows();
        let ghost rv = table@.rows;
        let mut i: usize = 0;
        while i < rows.len()
            invariant
                i <= rows.len(),
                rv == super::entity::rows_view(rows@),
                rv == table@.rows,
                set_u8(indexes@),
                forall|x: u8| #[trigger] indexes@.contains(x) <==> exists|m: int| 0 <= m < i && (#[trigger] rv[m]).0.len() > 0
                    && rv[m].0[0] >> 6u8 == x,
            decreases rows.len() - i,
        {
            assert(rv[i as int].0 == rows@[i as int].key@);
            let ghost before = indexes@;
            let key = &rows[i].key;
            if key.len() > 0 {
                insert_u8(&mut indexes, key[0] >> 6);
            }
            proof {
                assert forall|x: u8| #[trigger] indexes@.contains(x) <==> exists|m: int| 0 <= m < i + 1 && (#[trigger] rv[m]).0.len() > 0
                    && rv[m].0[0] >> 6u8 == x by {
                    if exists|m: int| 0 <= m < i + 1 && (#[trigger] rv[m]).0.len() > 0 && rv[m].0[0] >> 6u8 == x {
                        let m = choose|m: int| 0 <= m < i + 1 && (#[trigger] rv[m]).0.len() > 0 && rv[m].0[0] >> 6u8 == x;
                        if m < i {
                            assert(before.contains(x));
                        }
                    }
                }
            }
            i += 1;
        }
        indexes
    }
}

impl Mib {
    /// OLT-G text attribute `index`, or empty text.
    fn olt_text(&self, index: u8) -> (text: String)
        ensures
            text@ == spec_olt_text(self@.entities, index),
    {
        match self.attr_value_of(CLASS_OLT_G, 0, index) {
            Some(value) => omci_text(value.as_slice()),
            None => String::new(),
        }
    }

    /// The service configuration this MIB describes.
    pub fn provisioning_snapshot(&self) -> (snapshot: ProvisioningSnapshot)
        requires
            self.wf(),
        ensures
            snapshot_of(self@.entities, snapshot),
    {
        let ghost s = self@.entities;
        let (configured_tconts, gem_ports, gem_interworking_tps, vlan_rules) = self.snapshot_counts();
        let data_paths = self.data_paths();
        let mut vlan_ids: Vec<u16> = Vec::new();
        let mut multicast_vlan_ids: Vec<u16> = Vec::new();
        self.extended_vlan_ids(&mut vlan_ids);
        let ghost extended = vlan_ids@;
        let mut k: usize = 0;
        while k < data_paths.len()
            invariant
                k <= data_paths.len(),
                set_u16(vlan_ids@),
                set_u16(multicast_vlan_ids@),
                forall|v: u16| #[trigger] vlan_ids@.contains(v) <==> (extended.contains(v)
                    || exists|m: int| 0 <= m < k && !(#[trigger] data_paths@[m]).multicast && vid_valid(data_paths@[m].vlan_id)
                        && data_paths@[m].vlan_id == v),
                forall|v: u16| #[trigger] multicast_vlan_ids@.contains(v) <==> exists|m: int| 0 <= m < k
                    && (#[trigger] data_paths@[m]).multicast && vid_valid(data_paths@[m].vlan_id) && data_paths@[m].vlan_id == v,
            decreases data_paths.len() - k,
        {
            let path = data_paths[k];
            let ghost v0 = vlan_ids@;
            let ghost m0 = multicast_vlan_ids@;
            if 1 <= path.vlan_id && path.vlan_id <= 4094 {
                if path.multicast {
                    insert_u16(&mut multicast_vlan_ids, path.vlan_id);
                } else {
                    insert_u16(&mut vlan_ids, path.vlan_id);
                }
            }
            proof {
                assert forall|v: u16| #[trigger] vlan_ids@.contains(v) <==> (extended.contains(v)
                    || exists|m: int| 0 <= m < k + 1 && !(#[trigger] data_paths@[m]).multicast && vid_valid(data_paths@[m].vlan_id)
                        && data_paths@[m].vlan_id == v) by {
                    if exists|m: int| 0 <= m < k + 1 && !(#[trigger] data_paths@[m]).multicast && vid_valid(data_paths@[m].vlan_id)
                        && data_paths@[m].vlan_id == v {
                        let m = choose|m: int| 0 <= m < k + 1 && !(#[trigger] data_paths@[m]).multicast && vid_valid(data_paths@[m].vlan_id)
                            && data_paths@[m].vlan_id == v;
                        if m < k {
                            assert(v0.contains(v));
                        }
                    }
                }
                assert forall|v: u16| #[trigger] multicast_vlan_ids@.contains(v) <==> exists|m: int| 0 <= m < k + 1
                    && (#[trigger] data_paths@[m]).multicast && vid_valid(data_paths@[m].vlan_id) && data_paths@[m].vlan_id == v by {
                    if exists|m: int| 0 <= m < k + 1 && (#[trigger] data_paths@[m]).multicast && vid_valid(data_paths@[m].vlan_id)
                        && data_paths@[m].vlan_id == v {
                        let m = choose|m: int| 0 <= m < k + 1 && (#[trigger] data_paths@[m]).multicast && vid_valid(data_paths@[m].vlan_id)
                            && data_paths@[m].vlan_id == v;
                        if m < k {
                            assert(m0.contains(v));
                        }
                    }
                }
            }
            k += 1;
        }
        let ghost path_multicast = multicast_vlan_ids@;
        let mut igmp_upstream_tag_controls: Vec<u8> = Vec::new();
        let mut igmp_upstream_vlan_ids: Vec<u16> = Vec::new();
        self.subscriber_sets(&mut multicast_vlan_ids, &mut igmp_upstream_tag_controls, &mut igmp_upstream_vlan_ids);
        let broadcast_key_indexes = self.broadcast_key_indexes();
        let enhanced_security = find_record(&self.entities, CLASS_ENHANCED_SECURITY_CONTROL, 0).is_some();
        let snapshot = ProvisioningSnapshot {
            olt_vendor_id: self.olt_text(1),
            olt_equipment_id: self.olt_text(2),
            olt_version: self.olt_text(3),
            configured_tconts,
            gem_ports,
            gem_interworking_tps,
            vlan_rules,
            vlan_ids,
            multicast_vlan_ids,
            igmp_upstream_vlan_ids,
            igmp_upstream_tag_controls,
            enhanced_security,
            broadcast_key_indexes,
            data_paths,
        };
        proof {
            assert forall|v: u16| #[trigger] snapshot.vlan_ids@.contains(v) <==> super::provisioning::is_vlan_id(s, v) by {
                if exists|c: DataPathCandidate| #[trigger] is_data_path(s, c) && !c.multicast && vid_valid(c.vlan_id) && c.vlan_id == v {
                    let c = choose|c: DataPathCandidate| #[trigger] is_data_path(s, c) && !c.multicast && vid_valid(c.vlan_id) && c.vlan_id == v;
                    assert(snapshot.data_paths@.contains(c));
                    let m = choose|m: int| 0 <= m < snapshot.data_paths@.len() && snapshot.data_paths@[m] == c;
                    assert(!snapshot.data_paths@[m].multicast);
                }
                if snapshot.vlan_ids@.contains(v) && !extended.contains(v) {
                    let m = choose|m: int| 0 <= m < k && !(#[trigger] data_paths@[m]).multicast && vid_valid(data_paths@[m].vlan_id)
                        && data_paths@[m].vlan_id == v;
                    assert(snapshot.data_paths@.contains(data_paths@[m]));
                    assert(is_data_path(s, data_paths@[m]));
                }
            }
            assert forall|v: u16| #[trigger] snapshot.multicast_vlan_ids@.contains(v) <==> super::provisioning::is_multicast_vlan_id(s, v) by {
                if exists|c: DataPathCandidate| #[trigger] is_data_path(s, c) && c.multicast && vid_valid(c.vlan_id) && c.vlan_id == v {
                    let c = choose|c: DataPathCandidate| #[trigger] is_data_path(s, c) && c.multicast && vid_valid(c.vlan_id) && c.vlan_id == v;
                    assert(snapshot.data_paths@.contains(c));
                    let m = choose|m: int| 0 <= m < snapshot.data_paths@.len() && snapshot.data_paths@[m] == c;
                    assert(snapshot.data_paths@[m].multicast);
                    assert(path_multicast.contains(v));
                }
                if path_multicast.contains(v) {
                    let m = choose|m: int| 0 <= m < k && (#[trigger] data_paths@[m]).multicast && vid_valid(data_paths@[m].vlan_id)
                        && data_paths@[m].vlan_id == v;
                    assert(snapshot.data_paths@.contains(data_paths@[m]));
                    assert(is_data_path(s, data_paths@[m]));
                }
            }
        }
        snapshot
    }
}

fn graph_rows(rows: &Vec<TableRow>) -> (out: Vec<DataPathTableRow>)
    ensures
        out@.len() == rows@.len(),
        forall|i: int| 0 <= i < rows@.len() ==> (#[trigger] out@[i])@ == rows@[i]@,
{
    let mut out: Vec<DataPathTableRow> = Vec::new();
    let mut i: usize = 0;
    while i < rows.len()
        invariant
            i <= rows.len(),
            out@.len() == i,
            forall|k: int| 0 <= k < i ==> (#[trigger] out@[k])@ == rows@[k]@,
        decreases rows.len() - i,
    {
        out.push(DataPathTableRow { key: copy_bytes(rows[i].key.as_slice()), value: copy_bytes(rows[i].value.as_slice()) });
        i += 1;
    }
    out
}

fn graph_attributes(entity: &ManagedEntity) -> (out: Vec<DataPathAttribute>)
    ensures
        out@.len() == entity@.len(),
        forall|i: int| 0 <= i < entity@.len() ==> (#[trigger] out@[i])@ == graph_attribute(entity@[i]),
{
    let attributes = entity.attributes();
    let mut out: Vec<DataPathAttribute> = Vec::new();
    let mut i: usize = 0;
    while i < attributes.len()
        invariant
            i <= attributes.len(),
            super::entity::attribute_views(attributes@) == entity@,
            out@.len() == i,
            forall|k: int| 0 <= k < i ==> (#[trigger] out@[k])@ == graph_attribute(entity@[k]),
        decreases attributes.len() - i,
    {
        let a = &attributes[i];
        assert(entity@[i as int] == a@);
        let rows = graph_rows(a.rows());
        let attribute = DataPathAttribute { index: a.index(), value: copy_bytes(a.value().as_slice()), table_rows: rows };
        proof {
            assert(attribute@.rows =~= a@.rows);
        }
        out.push(attribute);
        i += 1;
    }
    out
}

impl Mib {
    /// The entities that decide GEM classification, in key order, with the data paths.
    pub fn data_path_graph(&self) -> (graph: DataPathGraph)
        requires
            self.wf(),
        ensures
            super::provisioning::set_candidates(graph.candidates@),
            forall|c: DataPathCandidate| #[trigger] graph.candidates@.contains(c) <==> is_data_path(self@.entities, c),
            entity_views(graph.entities@) == spec_graph_entities(self@.entities),
    {
        let ghost s = self@.entities;
        let candidates = self.data_paths();
        let mut entities: Vec<DataPathEntity> = Vec::new();
        let mut j: usize = 0;
        proof {
            reveal(Seq::filter);
            assert(s.take(0) =~= Seq::<RecordView>::empty());
            assert(entity_views(entities@) =~= spec_graph_entities(s.take(0)));
        }
        while j < self.entities.len()
            invariant
                j <= self.entities.len(),
                s == self@.entities,
                entity_views(entities@) == spec_graph_entities(s.take(j as int)),
            decreases self.entities.len() - j,
        {
            let record = &self.entities[j];
            assert(s[j as int] == record@);
            proof {
                lemma_filter_step(s, j as int, graph_filter());
            }
            let ghost before = entities@;
            if record.class_id == CLASS_MAC_BRIDGE_PORT_CONFIG_DATA || record.class_id == CLASS_VLAN_TAGGING_FILTER
                || record.class_id == CLASS_IEEE_8021P_MAPPER || record.class_id == CLASS_EXTENDED_VLAN_TAGGING
                || record.class_id == CLASS_GEM_INTERWORKING_TP || record.class_id == CLASS_MULTICAST_GEM_INTERWORKING_TP
                || record.class_id == CLASS_MULTICAST_OPERATIONS_PROFILE || record.class_id == CLASS_MULTICAST_SUBSCRIBER_CONFIG
                || record.class_id == CLASS_GEM_PORT_NETWORK_CTP || record.class_id == super::schema::CLASS_TRAFFIC_DESCRIPTOR {
                let attributes = graph_attributes(&record.entity);
                let entity = DataPathEntity { class_id: record.class_id, entity_id: record.entity_id, attributes };
                proof {
                    assert(entity@.attributes =~= record@.attributes.map_values(|a: AttributeView| graph_attribute(a)));
                    assert(entity@ == graph_entity(record@));
                }
                entities.push(entity);
                proof {
                    assert(entity_views(entities@) =~= entity_views(before).push(entity@));
                    assert(spec_graph_entities(s.take(j + 1)) =~= spec_graph_entities(s.take(j as int)).push(graph_entity(s[j as int])));
                }
            } else {
                proof {
                    assert(spec_graph_entities(s.take(j + 1)) =~= spec_graph_entities(s.take(j as int)));
                }
            }
            j += 1;
        }
        assert(s.take(j as int) =~= s);
        DataPathGraph { candidates, entities }
    }
}

} // verus!
