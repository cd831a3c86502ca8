//! The instances the ONU creates on its own, before any OLT request: their
//! attributes, and their arrangement in groups of consecutive entity IDs.
use vstd::prelude::*;

use super::bytes::{be16, be32, copy_bytes, u16_bytes, u32_bytes, zeros};
use super::config::{fixed_width, spec_fixed_width, spec_onu_g_serial, IdentityConfig};
use super::entity::{
    attribute_of, attributes_replace, attributes_wf, lemma_replace, rows_insert, scalar_view,
    table_view, AttributeView, ManagedEntity, RowView,
};
use super::handshake::replace_existing;
use super::mib::{entity_from_definition, lemma_entity_defined, spec_entity_from_definition};
use super::schema::{
    class_ids, managed_entities, spec_class_ids, spec_managed_entities, spec_managed_entity, spec_supports_action,
    definition_views, CLASS_CTC_LOID_AUTH, CLASS_ENHANCED_SECURITY_CONTROL, CLASS_OLT_G, CLASS_OMCI, CLASS_ONU2_G,
    CLASS_ONU_DATA, CLASS_ONU_G, CLASS_ONU_POWER_SHEDDING, CLASS_PPTP_ETHERNET_UNI, CLASS_PRIORITY_QUEUE,
    CLASS_SOFTWARE_IMAGE, CLASS_TCONT, CLASS_TRAFFIC_SCHEDULER, CLASS_UNI_G, CLASS_VEIP, CLASS_VENDOR_351,
};

verus! {

/// A read-only scalar.
pub open spec fn ro(index: u8, value: Seq<u8>) -> AttributeView {
    scalar_view(index, value, false)
}

/// A read-write scalar.
pub open spec fn rw(index: u8, value: Seq<u8>) -> AttributeView {
    scalar_view(index, value, true)
}

/// A one-byte value.
pub fn byte(value: u8) -> (bytes: Vec<u8>)
    ensures
        bytes@ == seq![value],
{
    let bytes = vec![value];
    assert(bytes@ =~= seq![value]);
    bytes
}

pub open spec fn zero_bytes(length: nat) -> Seq<u8> {
    Seq::new(length, |i: int| 0u8)
}

pub const TCONT_COUNT: u16 = 16;
pub const TCONT_FIRST_ENTITY: u16 = 0x8000;
pub const ETHERNET_UNI_COUNT: u16 = 4;
pub const QUEUES_PER_TCONT: u16 = 8;
pub const QUEUES_PER_UNI: u16 = 8;
pub const UPSTREAM_PRIORITY_QUEUE_COUNT: u16 = 128;
pub const DOWNSTREAM_PRIORITY_QUEUE_COUNT: u16 = 32;
pub const TOTAL_PRIORITY_QUEUE_COUNT: u16 = 160;
pub const TOTAL_GEM_PORT_COUNT: u16 = 256;
/// The VEIP slot and instance combined into one entity ID.
pub const VEIP_ENTITY: u16 = 0x0a01;
/// Groups of autonomous instances, in the order they are created.
pub const GROUP_COUNT: u8 = 16;

/// ONU data (Class 2): the MIB data sync counter starts at zero.
pub open spec fn spec_onu_data() -> Seq<AttributeView> {
    seq![rw(1, seq![0u8])]
}

/// Software image 0 is the committed, active image; image 1 the valid standby slot.
pub open spec fn spec_software_image(identity: IdentityConfig, active: bool) -> Seq<AttributeView> {
    let flag: u8 = if active { 1 } else { 0 };
    seq![
        ro(1, spec_fixed_width(identity.software_version@, 14)),
        ro(2, seq![flag]),
        ro(3, seq![flag]),
        ro(4, seq![1u8]),
    ]
}

/// ONU-G (Class 256) instance 0; option 2 of attribute 4 advertises
/// priority-controlled scheduling with rate-controlled shaping.
pub open spec fn spec_onu_g(identity: IdentityConfig, serial: Seq<u8>) -> Seq<AttributeView> {
    seq![
        ro(1, spec_fixed_width(identity.vendor_id@, 4)),
        ro(2, spec_fixed_width(identity.hardware_version@, 14)),
        ro(3, serial),
        ro(4, seq![0x02u8]),
        ro(5, seq![0u8]),
        rw(6, seq![0u8]),
        rw(7, seq![0u8]),
        ro(8, seq![0u8]),
        ro(9, seq![0u8]),
        ro(10, spec_fixed_width(identity.loid@, 24)),
        ro(11, spec_fixed_width(identity.loid_password@, 12)),
        rw(12, seq![0u8]),
        ro(13, seq![0u8]),
    ]
}

/// ONU2-G (Class 257): capabilities that mirror the T-CONTs, queues and GEM
/// ports below; the traffic management options occupy the low six bits.
pub open spec fn spec_onu2_g(identity: IdentityConfig) -> Seq<AttributeView> {
    seq![
        ro(1, spec_fixed_width(identity.equipment_id@, 20)),
        ro(2, seq![identity.omcc_version]),
        ro(3, seq![0u8, 0]),
        ro(4, seq![1u8]),
        rw(5, seq![1u8]),
        ro(6, be16(TOTAL_PRIORITY_QUEUE_COUNT)),
        ro(7, seq![16u8]),
        ro(8, seq![1u8]),
        ro(9, be16(TOTAL_GEM_PORT_COUNT)),
        ro(10, seq![0u8, 0, 0, 0]),
        ro(11, seq![0u8, 0]),
        rw(12, seq![0u8]),
        ro(13, be16(0x003f)),
        rw(14, be16(1)),
    ]
}

/// PPTP Ethernet UNI (Class 11), one per Ethernet port.
pub open spec fn spec_pptp_uni() -> Seq<AttributeView> {
    seq![
        rw(1, seq![0x2fu8]),
        ro(2, seq![0x2fu8]),
        rw(3, seq![0u8]),
        rw(4, seq![0u8]),
        rw(5, seq![0u8]),
        ro(6, seq![1u8]),
        ro(7, seq![0u8]),
        rw(8, be16(0x05ee)),
        rw(9, seq![0u8]),
        rw(10, be16(0)),
        rw(11, seq![0u8]),
        rw(12, seq![0u8]),
        rw(13, seq![0u8]),
        rw(14, seq![0u8]),
        rw(15, seq![0u8]),
    ]
}

/// ONU power shedding (Class 133) with zeroed timers.
pub open spec fn spec_power_shedding() -> Seq<AttributeView> {
    seq![
        rw(1, be16(0)),
        rw(2, be16(0)),
        rw(4, be16(0)),
        rw(5, be16(0)),
        rw(6, be16(0)),
        rw(7, be16(0)),
        rw(8, be16(0)),
        rw(9, be16(0)),
        rw(10, be16(0)),
        rw(11, be16(0)),
        ro(12, seq![0u8]),
    ]
}

/// CTC LOID authentication: operator, LOID and password as configured.
pub open spec fn spec_ctc_auth(identity: IdentityConfig) -> Seq<AttributeView> {
    seq![
        ro(1, spec_fixed_width(identity.operator_id@, 4)),
        ro(2, spec_fixed_width(identity.loid@, 24)),
        ro(3, spec_fixed_width(identity.loid_password@, 12)),
        rw(4, seq![0u8]),
    ]
}

/// Enhanced security control (Class 332), which negotiates the crypto
/// capabilities and key length of each epoch.
pub open spec fn spec_security_control() -> Seq<AttributeView> {
    seq![
        rw(1, zero_bytes(16)),
        table_view(2, 17, true),
        rw(3, seq![0u8]),
        ro(4, seq![1u8]),
        table_view(5, 16, false),
        table_view(6, 16, false),
        table_view(7, 17, true),
        rw(8, seq![0u8]),
        ro(9, seq![0u8]),
        ro(10, zero_bytes(16)),
        table_view(11, 18, true),
        ro(12, be16(128)),
    ]
}

/// T-CONT (Class 262); an unassigned Alloc-ID reads 0xffff.
pub open spec fn spec_tcont() -> Seq<AttributeView> {
    seq![rw(1, be16(0xffff)), ro(2, seq![1u8]), rw(3, seq![0u8])]
}

/// Priority queue (Class 277) of a related port and priority.
pub open spec fn spec_priority_queue(related_port: u16, priority: u16) -> Seq<AttributeView> {
    seq![
        ro(1, seq![1u8]),
        ro(2, be16(0xffff)),
        rw(3, be16(4)),
        rw(6, be16(related_port) + be16(priority)),
        rw(7, be16(0)),
        rw(8, seq![1u8]),
        rw(9, be16(0)),
        rw(10, be32(0)),
        rw(11, be16(0xffff)),
        rw(12, be16(0)),
    ]
}

/// Traffic scheduler (Class 278) of a T-CONT.
pub open spec fn spec_traffic_scheduler(entity_id: u16) -> Seq<AttributeView> {
    seq![rw(1, be16(entity_id)), ro(2, be16(0)), rw(3, seq![1u8]), rw(4, seq![0u8])]
}

/// Virtual Ethernet interface point (Class 329).
pub open spec fn spec_veip() -> Seq<AttributeView> {
    seq![rw(1, seq![0u8]), ro(2, seq![0u8]), rw(3, zero_bytes(25)), rw(4, be16(0xffff)), ro(5, seq![0u8, 0])]
}

/// OMCI class table rows: each registered class, the enhanced-security class
/// only while it is enabled, and never the vendor-specific class 351 (another
/// vendor's layout could otherwise be invited).
pub open spec fn class_table_rows(classes: Seq<u16>, enhanced: bool) -> Seq<RowView>
    decreases classes.len(),
{
    if classes.len() == 0 {
        Seq::empty()
    } else {
        let previous = class_table_rows(classes.drop_last(), enhanced);
        let c = classes.last();
        if (enhanced || c != CLASS_ENHANCED_SECURITY_CONTROL) && c != CLASS_VENDOR_351 {
            rows_insert(previous, be16(c), be16(c))
        } else {
            previous
        }
    }
}

/// Some registered class accepts `action`.
pub open spec fn spec_any_supports(action: u8) -> bool {
    exists|i: int| 0 <= i < spec_managed_entities().len() && spec_supports_action(#[trigger] spec_managed_entities()[i].actions, action)
}

/// OMCI message type table rows: the action codes below `n` some class accepts.
pub open spec fn message_table_rows(n: nat) -> Seq<RowView>
    decreases n,
{
    if n == 0 {
        Seq::empty()
    } else {
        let previous = message_table_rows((n - 1) as nat);
        let action = (n - 1) as u8;
        if spec_any_supports(action) { rows_insert(previous, seq![action], seq![action]) } else { previous }
    }
}

/// OMCI (Class 287): the class and message type tables of the registered schema.
pub open spec fn spec_omci_capability(enhanced: bool) -> Seq<AttributeView> {
    let base = spec_entity_from_definition(CLASS_OMCI, None).unwrap();
    let a1 = attribute_of(base, 1).unwrap();
    let with_classes = attributes_replace(base, AttributeView { rows: class_table_rows(spec_class_ids(), enhanced), ..a1 });
    let a2 = attribute_of(with_classes, 2).unwrap();
    attributes_replace(with_classes, AttributeView { rows: message_table_rows(32), ..a2 })
}

/// The class of group `g`.
pub open spec fn group_class(g: int) -> u16 {
    if g == 0 { CLASS_ONU_DATA }
    else if g == 1 { CLASS_SOFTWARE_IMAGE }
    else if g == 2 { CLASS_ONU_G }
    else if g == 3 { CLASS_ONU2_G }
    else if g == 4 { CLASS_PPTP_ETHERNET_UNI }
    else if g == 5 { CLASS_ONU_POWER_SHEDDING }
    else if g == 6 { CLASS_CTC_LOID_AUTH }
    else if g == 7 { CLASS_ENHANCED_SECURITY_CONTROL }
    else if g == 8 { CLASS_TCONT }
    else if g == 9 || g == 10 { CLASS_PRIORITY_QUEUE }
    else if g == 11 { CLASS_TRAFFIC_SCHEDULER }
    else if g == 12 { CLASS_VEIP }
    else if g == 13 { CLASS_OLT_G }
    else if g == 14 { CLASS_UNI_G }
    else { CLASS_OMCI }
}

/// The first entity ID of group `g`.
pub open spec fn group_first(g: int) -> int {
    if g == 4 || g == 14 { 1 }
    else if g == 8 || g == 9 || g == 11 { TCONT_FIRST_ENTITY as int }
    else if g == 12 { VEIP_ENTITY as int }
    else { 0 }
}

/// The number of instances in group `g`.
pub open spec fn group_count(g: int, enhanced: bool) -> int {
    if g == 1 { 2 }
    else if g == 4 || g == 14 { ETHERNET_UNI_COUNT as int }
    else if g == 7 { if enhanced { 1 } else { 0 } }
    else if g == 8 || g == 11 { TCONT_COUNT as int }
    else if g == 9 { UPSTREAM_PRIORITY_QUEUE_COUNT as int }
    else if g == 10 { DOWNSTREAM_PRIORITY_QUEUE_COUNT as int }
    else { 1 }
}

/// The attributes of instance `entity_id` of group `g`.
///
/// Upstream queues go eight to a T-CONT with priorities 7 down to 0;
/// downstream queues eight to an Ethernet UNI with priorities 0 up to 7.
pub open spec fn group_instance(identity: IdentityConfig, serial: Seq<u8>, g: int, entity_id: int) -> Seq<AttributeView> {
    if g == 0 { spec_onu_data() }
    else if g == 1 { spec_software_image(identity, entity_id == 0) }
    else if g == 2 { spec_onu_g(identity, serial) }
    else if g == 3 { spec_onu2_g(identity) }
    else if g == 4 { spec_pptp_uni() }
    else if g == 5 { spec_power_shedding() }
    else if g == 6 { spec_ctc_auth(identity) }
    else if g == 7 { spec_security_control() }
    else if g == 8 { spec_tcont() }
    else if g == 9 {
        let offset = entity_id - TCONT_FIRST_ENTITY;
        spec_priority_queue((TCONT_FIRST_ENTITY + offset / 8) as u16, (7 - offset % 8) as u16)
    }
    else if g == 10 { spec_priority_queue((0x0100 + 1 + entity_id / 8) as u16, (entity_id % 8) as u16) }
    else if g == 11 { spec_traffic_scheduler(entity_id as u16) }
    else if g == 12 { spec_veip() }
    else if g == 13 { spec_entity_from_definition(CLASS_OLT_G, None).unwrap() }
    else if g == 14 { spec_entity_from_definition(CLASS_UNI_G, None).unwrap() }
    else { spec_omci_capability(!identity.disable_enhanced_security) }
}

/// The instance `(class_id, entity_id)` of group `g`, if it belongs to it.
pub open spec fn group_entity(identity: IdentityConfig, serial: Seq<u8>, g: int, class_id: u16, entity_id: u16) -> Option<Seq<AttributeView>> {
    if class_id == group_class(g) && group_first(g) <= entity_id < group_first(g) + group_count(g, !identity.disable_enhanced_security) {
        Some(group_instance(identity, serial, g, entity_id as int))
    } else {
        None
    }
}

/// The instance `(class_id, entity_id)` after the first `n` groups are created
/// (a later group replaces an instance of an earlier one).
pub open spec fn autonomous_upto(identity: IdentityConfig, serial: Seq<u8>, n: int, class_id: u16, entity_id: u16) -> Option<Seq<AttributeView>>
    decreases n,
{
    if n <= 0 {
        None
    } else {
        match group_entity(identity, serial, n - 1, class_id, entity_id) {
            Some(a) => Some(a),
            None => autonomous_upto(identity, serial, n - 1, class_id, entity_id),
        }
    }
}

/// The autonomous instance `(class_id, entity_id)` the ONU creates from its identity.
pub open spec fn autonomous_instance(identity: IdentityConfig, class_id: u16, entity_id: u16) -> Option<Seq<AttributeView>> {
    autonomous_upto(
        identity,
        spec_onu_g_serial(identity.vendor_id@, identity.serial_number@),
        GROUP_COUNT as int,
        class_id,
        entity_id,
    )
}

fn onu_data_entity() -> (entity: ManagedEntity)
    ensures
        entity@ == spec_onu_data(),
        attributes_wf(entity@),
{
    let entity = ManagedEntity::empty().read_write(1, byte(0));
    assert(entity@ =~= spec_onu_data());
    entity
}

fn software_image_entity(identity: &IdentityConfig, active: bool) -> (entity: ManagedEntity)
    ensures
        entity@ == spec_software_image(*identity, active),
        attributes_wf(entity@),
{
    let flag: u8 = if active { 1 } else { 0 };
    let entity = ManagedEntity::empty()
        .read_only(1, fixed_width(identity.software_version.as_slice(), 14))
        .read_only(2, byte(flag))
        .read_only(3, byte(flag))
        .read_only(4, byte(1));
    assert(entity@ =~= spec_software_image(*identity, active));
    entity
}

fn onu_g_entity(identity: &IdentityConfig, serial: &[u8; 8]) -> (entity: ManagedEntity)
    ensures
        entity@ == spec_onu_g(*identity, serial@),
        attributes_wf(entity@),
{
    let entity = ManagedEntity::empty()
        .read_only(1, fixed_width(identity.vendor_id.as_slice(), 4))
        .read_only(2, fixed_width(identity.hardware_version.as_slice(), 14))
        .read_only(3, copy_bytes(serial.as_slice()))
        .read_only(4, byte(0x02))
        .read_only(5, byte(0))
        .read_write(6, byte(0))
        .read_write(7, byte(0))
        .read_only(8, byte(0))
        .read_only(9, byte(0))
        .read_only(10, fixed_width(identity.loid.as_slice(), 24))
        .read_only(11, fixed_width(identity.loid_password.as_slice(), 12))
        .read_write(12, byte(0))
        .read_only(13, byte(0));
    assert(entity@ =~= spec_onu_g(*identity, serial@));
    entity
}

fn onu2_g_entity(identity: &IdentityConfig) -> (entity: ManagedEntity)
    ensures
        entity@ == spec_onu2_g(*identity),
        attributes_wf(entity@),
{
    let two = zeros(2);
    assert(two@ =~= seq![0u8, 0]);
    let four = zeros(4);
    assert(four@ =~= seq![0u8, 0, 0, 0]);
    let two_more = zeros(2);
    assert(two_more@ =~= seq![0u8, 0]);
    let entity = ManagedEntity::empty()
        .read_only(1, fixed_width(identity.equipment_id.as_slice(), 20))
        .read_only(2, byte(identity.omcc_version))
        .read_only(3, two)
        .read_only(4, byte(1))
        .read_write(5, byte(1))
        .read_only(6, u16_bytes(TOTAL_PRIORITY_QUEUE_COUNT))
        .read_only(7, byte(16))
        .read_only(8, byte(1))
        .read_only(9, u16_bytes(TOTAL_GEM_PORT_COUNT))
        .read_only(10, four)
        .read_only(11, two_more)
        .read_write(12, byte(0))
        .read_only(13, u16_bytes(0x003f))
        .read_write(14, u16_bytes(1));
    assert(entity@ =~= spec_onu2_g(*identity));
    entity
}

fn pptp_uni_entity() -> (entity: ManagedEntity)
    ensures
        entity@ == spec_pptp_uni(),
        attributes_wf(entity@),
{
    let entity = ManagedEntity::empty()
        .read_write(1, byte(0x2f))
        .read_only(2, byte(0x2f))
        .read_write(3, byte(0))
        .read_write(4, byte(0))
        .read_write(5, byte(0))
        .read_only(6, byte(1))
        .read_only(7, byte(0))
        .read_write(8, u16_bytes(0x05ee))
        .read_write(9, byte(0))
        .read_write(10, u16_bytes(0))
        .read_write(11, byte(0))
        .read_write(12, byte(0))
        .read_write(13, byte(0))
        .read_write(14, byte(0))
        .read_write(15, byte(0));
    assert(entity@ =~= spec_pptp_uni());
    entity
}

fn power_shedding_entity() -> (entity: ManagedEntity)
    ensures
        entity@ == spec_power_shedding(),
        attributes_wf(entity@),
{
    let entity = ManagedEntity::empty()
        .read_write(1, u16_bytes(0))
        .read_write(2, u16_bytes(0))
        .read_write(4, u16_bytes(0))
        .read_write(5, u16_bytes(0))
        .read_write(6, u16_bytes(0))
        .read_write(7, u16_bytes(0))
        .read_write(8, u16_bytes(0))
        .read_write(9, u16_bytes(0))
        .read_write(10, u16_bytes(0))
        .read_write(11, u16_bytes(0))
        .read_only(12, byte(0));
    assert(entity@ =~= spec_power_shedding());
    entity
}

fn ctc_auth_entity(identity: &IdentityConfig) -> (entity: ManagedEntity)
    ensures
        entity@ == spec_ctc_auth(*identity),
        attributes_wf(entity@),
{
    let entity = ManagedEntity::empty()
        .read_only(1, fixed_width(identity.operator_id.as_slice(), 4))
        .read_only(2, fixed_width(identity.loid.as_slice(), 24))
        .read_only(3, fixed_width(identity.loid_password.as_slice(), 12))
        .read_write(4, byte(0));
    assert(entity@ =~= spec_ctc_auth(*identity));
    entity
}

fn security_control_entity() -> (entity: ManagedEntity)
    ensures
        entity@ == spec_security_control(),
        attributes_wf(entity@),
{
    let entity = ManagedEntity::empty()
        .read_write(1, zeros(16))
        .table(2, 17)
        .read_write(3, byte(0))
        .read_only(4, byte(1))
        .read_only_table(5, 16)
        .read_only_table(6, 16)
        .table(7, 17)
        .read_write(8, byte(0))
        .read_only(9, byte(0))
        .read_only(10, zeros(16))
        .table(11, 18)
        .read_only(12, u16_bytes(128));
    assert(entity@ =~= spec_security_control());
    entity
}

fn tcont_entity() -> (entity: ManagedEntity)
    ensures
        entity@ == spec_tcont(),
        attributes_wf(entity@),
{
    let entity = ManagedEntity::empty().read_write(1, u16_bytes(0xffff)).read_only(2, byte(1)).read_write(3, byte(0));
    assert(entity@ =~= spec_tcont());
    entity
}

/// A priority queue of `related_port` at `priority`.
pub fn priority_queue_entity(related_port: u16, priority: u16) -> (entity: ManagedEntity)
    ensures
        entity@ == spec_priority_queue(related_port, priority),
        attributes_wf(entity@),
{
    let mut related = u16_bytes(related_port);
    let p = u16_bytes(priority);
    super::bytes::append_bytes(&mut related, p.as_slice());
    let entity = ManagedEntity::empty()
        .read_only(1, byte(1))
        .read_only(2, u16_bytes(0xffff))
        .read_write(3, u16_bytes(4))
        .read_write(6, related)
        .read_write(7, u16_bytes(0))
        .read_write(8, byte(1))
        .read_write(9, u16_bytes(0))
        .read_write(10, u32_bytes(0))
        .read_write(11, u16_bytes(0xffff))
        .read_write(12, u16_bytes(0));
    assert(entity@ =~= spec_priority_queue(related_port, priority));
    entity
}

fn traffic_scheduler_entity(entity_id: u16) -> (entity: ManagedEntity)
    ensures
        entity@ == spec_traffic_scheduler(entity_id),
        attributes_wf(entity@),
{
    let entity = ManagedEntity::empty()
        .read_write(1, u16_bytes(entity_id))
        .read_only(2, u16_bytes(0))
        .read_write(3, byte(1))
        .read_write(4, byte(0));
    assert(entity@ =~= spec_traffic_scheduler(entity_id));
    entity
}

fn veip_entity() -> (entity: ManagedEntity)
    ensures
        entity@ == spec_veip(),
        attributes_wf(entity@),
{
    let two = zeros(2);
    assert(two@ =~= seq![0u8, 0]);
    let entity = ManagedEntity::empty()
        .read_write(1, byte(0))
        .read_only(2, byte(0))
        .read_write(3, zeros(25))
        .read_write(4, u16_bytes(0xffff))
        .read_only(5, two);
    assert(entity@ =~= spec_veip());
    entity
}

/// The facts of the OMCI definition the capability entity relies on.
pub proof fn lemma_omci_base()
    ensures
        spec_managed_entity(CLASS_OMCI) is Some,
        spec_entity_from_definition(CLASS_OMCI, None) matches Some(base) && base.len() == 2 && base[0].index == 1
            && base[1].index == 2,
{
    reveal(spec_managed_entity);
    lemma_entity_defined(CLASS_OMCI);
}

/// Some registered class accepts `action`.
fn any_supports(definitions: &Vec<super::schema::ManagedEntityDefinition>, action: u8) -> (found: bool)
    requires
        definition_views(definitions@) == spec_managed_entities(),
        action < 32,
    ensures
        found == spec_any_supports(action),
{
    let mut j: usize = 0;
    while j < definitions.len()
        invariant
            j <= definitions.len(),
            definition_views(definitions@) == spec_managed_entities(),
            action < 32,
            forall|i: int| 0 <= i < j ==> !spec_supports_action(#[trigger] spec_managed_entities()[i].actions, action),
        decreases definitions.len() - j,
    {
        assert(spec_managed_entities()[j as int] == definitions@[j as int]@);
        if definitions[j].supports_action(action) {
            assert(spec_supports_action(spec_managed_entities()[j as int].actions, action));
            return true;
        }
        j += 1;
    }
    false
}

/// The OMCI instance with its class and message type tables.
pub fn omci_capability_entity(enhanced: bool) -> (entity: ManagedEntity)
    ensures
        entity@ == spec_omci_capability(enhanced),
        attributes_wf(entity@),
{
    proof {
        lemma_omci_base();
    }
    let mut entity = entity_from_definition(CLASS_OMCI, None).unwrap();
    let ghost base = entity@;
    proof {
        super::entity::lemma_attribute_position(base, 0);
        super::entity::lemma_attribute_position(base, 1);
    }
    let ai = entity.find(1).unwrap();
    let ghost a1 = base[ai as int];
    let mut classes = entity.attribute_at(ai).duplicate();
    classes.clear_rows();
    assert(a1.rows =~= Seq::<RowView>::empty()) by {
        assert(attributes_wf(base));
    }
    let ids = class_ids();
    let mut i: usize = 0;
    assert(spec_class_ids().take(0) =~= Seq::<u16>::empty());
    while i < ids.len()
        invariant
            i <= ids.len(),
            ids@ == spec_class_ids(),
            classes@ == (AttributeView { rows: class_table_rows(spec_class_ids().take(i as int), enhanced), ..a1 }),
            super::entity::rows_sorted(classes@.rows),
        decreases ids.len() - i,
    {
        let c = ids[i];
        proof {
            let t = spec_class_ids().take(i + 1);
            assert(t.drop_last() =~= spec_class_ids().take(i as int));
            assert(t.last() == c);
        }
        if (enhanced || c != CLASS_ENHANCED_SECURITY_CONTROL) && c != CLASS_VENDOR_351 {
            classes.put_row(u16_bytes(c), u16_bytes(c));
        }
        i += 1;
    }
    assert(spec_class_ids().take(ids.len() as int) =~= spec_class_ids());
    proof {
        lemma_replace(base, classes@);
    }
    replace_existing(&mut entity, classes);
    let ghost with_classes = entity@;
    let bi = entity.find(2).unwrap();
    let ghost a2 = with_classes[bi as int];
    let mut messages = entity.attribute_at(bi).duplicate();
    messages.clear_rows();
    let definitions = managed_entities();
    let mut action: u8 = 0;
    while action < 32
        invariant
            action <= 32,
            definition_views(definitions@) == spec_managed_entities(),
            messages@ == (AttributeView { rows: message_table_rows(action as nat), ..a2 }),
            super::entity::rows_sorted(messages@.rows),
        decreases 32 - action,
    {
        if any_supports(&definitions, action) {
            messages.put_row(byte(action), byte(action));
        }
        action += 1;
    }
    proof {
        lemma_replace(with_classes, messages@);
        assert(attribute_of(with_classes, 2) == Some(a2));
    }
    replace_existing(&mut entity, messages);
    entity
}

/// The class of group `g`.
pub fn group_class_of(g: u8) -> (class_id: u16)
    ensures
        class_id == group_class(g as int),
{
    if g == 0 { CLASS_ONU_DATA }
    else if g == 1 { CLASS_SOFTWARE_IMAGE }
    else if g == 2 { CLASS_ONU_G }
    else if g == 3 { CLASS_ONU2_G }
    else if g == 4 { CLASS_PPTP_ETHERNET_UNI }
    else if g == 5 { CLASS_ONU_POWER_SHEDDING }
    else if g == 6 { CLASS_CTC_LOID_AUTH }
    else if g == 7 { CLASS_ENHANCED_SECURITY_CONTROL }
    else if g == 8 { CLASS_TCONT }
    else if g == 9 || g == 10 { CLASS_PRIORITY_QUEUE }
    else if g == 11 { CLASS_TRAFFIC_SCHEDULER }
    else if g == 12 { CLASS_VEIP }
    else if g == 13 { CLASS_OLT_G }
    else if g == 14 { CLASS_UNI_G }
    else { CLASS_OMCI }
}

/// The first entity ID of group `g`.
pub fn group_first_of(g: u8) -> (entity_id: u16)
    ensures
        entity_id == group_first(g as int),
{
    if g == 4 || g == 14 { 1 }
    else if g == 8 || g == 9 || g == 11 { TCONT_FIRST_ENTITY }
    else if g == 12 { VEIP_ENTITY }
    else { 0 }
}

/// The number of instances in group `g`.
pub fn group_count_of(g: u8, enhanced: bool) -> (count: u16)
    ensures
        count == group_count(g as int, enhanced),
{
    if g == 1 { 2 }
    else if g == 4 || g == 14 { ETHERNET_UNI_COUNT }
    else if g == 7 { if enhanced { 1 } else { 0 } }
    else if g == 8 || g == 11 { TCONT_COUNT }
    else if g == 9 { UPSTREAM_PRIORITY_QUEUE_COUNT }
    else if g == 10 { DOWNSTREAM_PRIORITY_QUEUE_COUNT }
    else { 1 }
}

proof fn lemma_definitions_registered()
    ensures
        spec_managed_entity(CLASS_OLT_G) is Some,
        spec_managed_entity(CLASS_UNI_G) is Some,
{
    reveal(spec_managed_entity);
}

/// Instance `entity_id` of group `g`.
pub fn group_entity_of(identity: &IdentityConfig, serial: &[u8; 8], g: u8, entity_id: u16) -> (entity: ManagedEntity)
    requires
        g < GROUP_COUNT,
        group_first(g as int) <= entity_id < group_first(g as int) + group_count(g as int, !identity.disable_enhanced_security),
    ensures
        entity@ == group_instance(*identity, serial@, g as int, entity_id as int),
        attributes_wf(entity@),
{
    if g == 0 {
        onu_data_entity()
    } else if g == 1 {
        software_image_entity(identity, entity_id == 0)
    } else if g == 2 {
        onu_g_entity(identity, serial)
    } else if g == 3 {
        onu2_g_entity(identity)
    } else if g == 4 {
        pptp_uni_entity()
    } else if g == 5 {
        power_shedding_entity()
    } else if g == 6 {
        ctc_auth_entity(identity)
    } else if g == 7 {
        security_control_entity()
    } else if g == 8 {
        tcont_entity()
    } else if g == 9 {
        let offset = entity_id - TCONT_FIRST_ENTITY;
        priority_queue_entity(TCONT_FIRST_ENTITY + offset / QUEUES_PER_TCONT, 7 - offset % QUEUES_PER_TCONT)
    } else if g == 10 {
        priority_queue_entity(0x0100 + 1 + entity_id / QUEUES_PER_UNI, entity_id % QUEUES_PER_UNI)
    } else if g == 11 {
        traffic_scheduler_entity(entity_id)
    } else if g == 12 {
        veip_entity()
    } else if g == 13 {
        proof {
            lemma_definitions_registered();
            lemma_entity_defined(CLASS_OLT_G);
        }
        entity_from_definition(CLASS_OLT_G, None).unwrap()
    } else if g == 14 {
        proof {
            lemma_definitions_registered();
            lemma_entity_defined(CLASS_UNI_G);
        }
        entity_from_definition(CLASS_UNI_G, None).unwrap()
    } else {
        omci_capability_entity(!identity.disable_enhanced_security)
    }
}

/// The eight bytes of a serial number as an array.
pub fn serial_array(bytes: &Vec<u8>) -> (serial: [u8; 8])
    requires
        bytes@.len() == 8,
    ensures
        serial@ == bytes@,
{
    let mut serial = [0u8; 8];
    let mut k: usize = 0;
    while k < 8
        invariant
            k <= 8,
            bytes@.len() == 8,
            serial@.len() == 8,
            forall|j: int| 0 <= j < k ==> serial@[j] == bytes@[j],
        decreases 8 - k,
    {
        serial.set(k, bytes[k]);
        k += 1;
    }
    assert(serial@ =~= bytes@);
    serial
}

/// The class table rows are in key order.
pub proof fn lemma_class_rows_sorted(classes: Seq<u16>, enhanced: bool)
    ensures
        super::entity::rows_sorted(class_table_rows(classes, enhanced)),
    decreases classes.len(),
{
    if classes.len() > 0 {
        lemma_class_rows_sorted(classes.drop_last(), enhanced);
        super::entity::lemma_row_order();
        let c = classes.last();
        super::sorted::lemma_insert_sorted(
            class_table_rows(classes.drop_last(), enhanced),
            (be16(c), be16(c)),
            super::entity::row_key(),
            super::entity::row_lt(),
        );
    }
}

} // verus!
