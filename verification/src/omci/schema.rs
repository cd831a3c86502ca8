//! Declarative OMCI managed-entity definitions.
use vstd::prelude::*;

use super::protocol::{
    ACTION_CREATE, ACTION_DELETE, ACTION_GET, ACTION_GET_ALL_ALARMS, ACTION_GET_ALL_ALARMS_NEXT,
    ACTION_GET_CURRENT_DATA, ACTION_GET_NEXT, ACTION_MIB_RESET, ACTION_MIB_UPLOAD,
    ACTION_MIB_UPLOAD_NEXT, ACTION_SET, ACTION_SET_TABLE, ACTION_SYNCHRONIZE_TIME,
};

verus! {

pub const CLASS_ONU_DATA: u16 = 2;
pub const CLASS_CARDHOLDER: u16 = 5;
pub const CLASS_CIRCUIT_PACK: u16 = 6;
pub const CLASS_SOFTWARE_IMAGE: u16 = 7;
pub const CLASS_PPTP_ETHERNET_UNI: u16 = 11;
pub const CLASS_ETHERNET_PM_HISTORY_DATA: u16 = 24;
pub const CLASS_MAC_BRIDGE_SERVICE_PROFILE: u16 = 45;
pub const CLASS_MAC_BRIDGE_PORT_CONFIG_DATA: u16 = 47;
pub const CLASS_MAC_BRIDGE_PORT_PM_HISTORY_DATA: u16 = 52;
pub const CLASS_MAC_BRIDGE_PORT_FILTER_PREASSIGN_DATA: u16 = 79;
pub const CLASS_VLAN_TAGGING_FILTER: u16 = 84;
pub const CLASS_ETHERNET_PM_HISTORY_DATA_2: u16 = 89;
pub const CLASS_IEEE_8021P_MAPPER: u16 = 130;
pub const CLASS_OLT_G: u16 = 131;
pub const CLASS_ONU_POWER_SHEDDING: u16 = 133;
pub const CLASS_EXTENDED_VLAN_TAGGING: u16 = 171;
pub const CLASS_VENDOR_247: u16 = 247;
pub const CLASS_ONU_G: u16 = 256;
pub const CLASS_ONU2_G: u16 = 257;
pub const CLASS_TCONT: u16 = 262;
pub const CLASS_ANI_G: u16 = 263;
pub const CLASS_UNI_G: u16 = 264;
pub const CLASS_GEM_INTERWORKING_TP: u16 = 266;
pub const CLASS_GEM_PORT_PM_HISTORY_DATA: u16 = 267;
pub const CLASS_GEM_PORT_NETWORK_CTP: u16 = 268;
pub const CLASS_GAL_ETHERNET_PROFILE: u16 = 272;
pub const CLASS_THRESHOLD_DATA_1: u16 = 273;
pub const CLASS_THRESHOLD_DATA_2: u16 = 274;
pub const CLASS_PRIORITY_QUEUE: u16 = 277;
pub const CLASS_TRAFFIC_SCHEDULER: u16 = 278;
pub const CLASS_TRAFFIC_DESCRIPTOR: u16 = 280;
pub const CLASS_MULTICAST_GEM_INTERWORKING_TP: u16 = 281;
pub const CLASS_OMCI: u16 = 287;
pub const CLASS_ETHERNET_PM_HISTORY_DATA_3: u16 = 296;
pub const CLASS_MULTICAST_OPERATIONS_PROFILE: u16 = 309;
pub const CLASS_MULTICAST_SUBSCRIBER_CONFIG: u16 = 310;
pub const CLASS_MULTICAST_SUBSCRIBER_MONITOR: u16 = 311;
pub const CLASS_FEC_PM_HISTORY_DATA: u16 = 312;
pub const CLASS_VEIP: u16 = 329;
pub const CLASS_ENHANCED_SECURITY_CONTROL: u16 = 332;
pub const CLASS_ETHERNET_FRAME_EXTENDED_PM: u16 = 334;
pub const CLASS_VENDOR_351: u16 = 351;
pub const CLASS_CTC_LOID_AUTH: u16 = 0xfffa;

#[derive(Clone, Copy, Debug, PartialEq, Eq, Structural)]
pub enum ManagedEntityOrigin {
    Onu,
    Olt,
}

#[derive(Clone, Copy, Debug, PartialEq, Eq, Structural)]
pub enum AttributeAccess {
    ReadOnly,
    ReadWrite,
}

#[derive(Clone, Copy, Debug, PartialEq, Eq, Structural)]
pub enum AttributeKind {
    Scalar { length: usize },
    Table { row_length: usize },
}

/// Where a Create request carries the initial value of an attribute.
#[derive(Clone, Copy, Debug, PartialEq, Eq, Structural)]
pub enum CreateSource {
    /// The attribute is not part of the Create contents.
    Absent,
    Required { offset: usize },
    Optional { offset: usize },
}

#[derive(Clone, Copy, Debug)]
pub struct AttributeDefinition {
    pub index: u8,
    pub access: AttributeAccess,
    pub kind: AttributeKind,
    pub create: CreateSource,
    pub default: &'static [u8],
    pub upload: bool,
}

pub ghost struct AttributeDefinitionView {
    pub index: u8,
    pub access: AttributeAccess,
    pub kind: AttributeKind,
    pub create: CreateSource,
    pub default: Seq<u8>,
    pub upload: bool,
}

impl View for AttributeDefinition {
    type V = AttributeDefinitionView;

    open spec fn view(&self) -> AttributeDefinitionView {
        AttributeDefinitionView {
            index: self.index,
            access: self.access,
            kind: self.kind,
            create: self.create,
            default: self.default@,
            upload: self.upload,
        }
    }
}

pub open spec fn attribute_views(attributes: Seq<AttributeDefinition>) -> Seq<AttributeDefinitionView> {
    attributes.map_values(|attribute: AttributeDefinition| attribute@)
}

pub open spec fn spec_read_only(index: u8, length: usize) -> AttributeDefinitionView {
    AttributeDefinitionView {
        index,
        access: AttributeAccess::ReadOnly,
        kind: AttributeKind::Scalar { length },
        create: CreateSource::Absent,
        default: Seq::empty(),
        upload: true,
    }
}

pub open spec fn spec_read_write(index: u8, length: usize) -> AttributeDefinitionView {
    AttributeDefinitionView {
        index,
        access: AttributeAccess::ReadWrite,
        kind: AttributeKind::Scalar { length },
        create: CreateSource::Absent,
        default: Seq::empty(),
        upload: true,
    }
}

pub open spec fn spec_read_only_table(index: u8, row_length: usize) -> AttributeDefinitionView {
    AttributeDefinitionView {
        index,
        access: AttributeAccess::ReadOnly,
        kind: AttributeKind::Table { row_length },
        create: CreateSource::Absent,
        default: Seq::empty(),
        upload: false,
    }
}

pub open spec fn spec_read_write_table(index: u8, row_length: usize) -> AttributeDefinitionView {
    AttributeDefinitionView {
        index,
        access: AttributeAccess::ReadWrite,
        kind: AttributeKind::Table { row_length },
        create: CreateSource::Absent,
        default: Seq::empty(),
        upload: false,
    }
}

pub open spec fn spec_required(attribute: AttributeDefinitionView, offset: usize) -> AttributeDefinitionView {
    AttributeDefinitionView { create: CreateSource::Required { offset }, ..attribute }
}

pub open spec fn spec_optional(attribute: AttributeDefinitionView, offset: usize) -> AttributeDefinitionView {
    AttributeDefinitionView { create: CreateSource::Optional { offset }, ..attribute }
}

pub open spec fn spec_with_default(attribute: AttributeDefinitionView, value: Seq<u8>) -> AttributeDefinitionView {
    AttributeDefinitionView { default: value, ..attribute }
}

pub open spec fn spec_runtime_only(attribute: AttributeDefinitionView) -> AttributeDefinitionView {
    AttributeDefinitionView { upload: false, ..attribute }
}

impl AttributeDefinition {
    /// A read-only scalar attribute of `length` bytes, included in MIB upload.
    pub fn read_only(index: u8, length: usize) -> (attribute: Self)
        ensures
            attribute@ == spec_read_only(index, length),
    {
        let attribute = Self {
            index,
            access: AttributeAccess::ReadOnly,
            kind: AttributeKind::Scalar { length },
            create: CreateSource::Absent,
            default: &[],
            upload: true,
        };
        assert(attribute.default@ =~= Seq::<u8>::empty());
        attribute
    }

    /// A read-write scalar attribute of `length` bytes, included in MIB upload.
    pub fn read_write(index: u8, length: usize) -> (attribute: Self)
        ensures
            attribute@ == spec_read_write(index, length),
    {
        let attribute = Self {
            index,
            access: AttributeAccess::ReadWrite,
            kind: AttributeKind::Scalar { length },
            create: CreateSource::Absent,
            default: &[],
            upload: true,
        };
        assert(attribute.default@ =~= Seq::<u8>::empty());
        attribute
    }

    /// A read-only table attribute with rows of `row_length` bytes.
    pub fn read_only_table(index: u8, row_length: usize) -> (attribute: Self)
        ensures
            attribute@ == spec_read_only_table(index, row_length),
    {
        let attribute = Self {
            index,
            access: AttributeAccess::ReadOnly,
            kind: AttributeKind::Table { row_length },
            create: CreateSource::Absent,
            default: &[],
            upload: false,
        };
        assert(attribute.default@ =~= Seq::<u8>::empty());
        attribute
    }

    /// A read-write table attribute with rows of `row_length` bytes.
    pub fn read_write_table(index: u8, row_length: usize) -> (attribute: Self)
        ensures
            attribute@ == spec_read_write_table(index, row_length),
    {
        let attribute = Self {
            index,
            access: AttributeAccess::ReadWrite,
            kind: AttributeKind::Table { row_length },
            create: CreateSource::Absent,
            default: &[],
            upload: false,
        };
        assert(attribute.default@ =~= Seq::<u8>::empty());
        attribute
    }

    /// The Create contents must carry this attribute at `offset`.
    pub fn required(self, offset: usize) -> (attribute: Self)
        ensures
            attribute@ == spec_required(self@, offset),
    {
        Self { create: CreateSource::Required { offset }, ..self }
    }

    /// The Create contents may carry this attribute at `offset`.
    pub fn optional(self, offset: usize) -> (attribute: Self)
        ensures
            attribute@ == spec_optional(self@, offset),
    {
        Self { create: CreateSource::Optional { offset }, ..self }
    }

    /// The value an attribute takes where no Create contents supply it.
    pub fn with_default(self, value: &'static [u8]) -> (attribute: Self)
        ensures
            attribute@ == spec_with_default(self@, value@),
    {
        Self { default: value, ..self }
    }

    /// Excludes the attribute from MIB upload (runtime counters).
    pub fn runtime_only(self) -> (attribute: Self)
        ensures
            attribute@ == spec_runtime_only(self@),
    {
        Self { upload: false, ..self }
    }
}

#[derive(Clone, Copy, Debug)]
pub struct ManagedEntityDefinition {
    pub class_id: u16,
    pub name: &'static str,
    pub origin: ManagedEntityOrigin,
    /// Bit `n` is set where the class supports action `n`.
    pub actions: u32,
    pub attributes: &'static [AttributeDefinition],
}

pub ghost struct ManagedEntityDefinitionView {
    pub class_id: u16,
    pub name: Seq<char>,
    pub origin: ManagedEntityOrigin,
    pub actions: u32,
    pub attributes: Seq<AttributeDefinitionView>,
}

impl View for ManagedEntityDefinition {
    type V = ManagedEntityDefinitionView;

    open spec fn view(&self) -> ManagedEntityDefinitionView {
        ManagedEntityDefinitionView {
            class_id: self.class_id,
            name: self.name@,
            origin: self.origin,
            actions: self.actions,
            attributes: attribute_views(self.attributes@),
        }
    }
}

pub open spec fn definition_view(definition: Option<ManagedEntityDefinition>) -> Option<ManagedEntityDefinitionView> {
    match definition {
        Some(d) => Some(d@),
        None => None,
    }
}

/// The action-set bit of action code `action`.
pub open spec fn spec_action_bit(action: u8) -> u32 {
    (1u32 << action) as u32
}

pub open spec fn spec_supports_action(actions: u32, action: u8) -> bool {
    actions & spec_action_bit(action) != 0
}

impl ManagedEntityDefinition {
    /// Whether the class accepts action code `action` (below 32).
    pub fn supports_action(&self, action: u8) -> (supported: bool)
        requires
            action < 32,
        ensures
            supported == spec_supports_action(self.actions, action),
    {
        self.actions & action_bit(action) != 0
    }
}

fn action_bit(action: u8) -> (bit: u32)
    requires
        action < 32,
    ensures
        bit == spec_action_bit(action),
{
    1u32 << action
}

pub const ACTION_BIT_CREATE: u32 = 0x10;
pub const ACTION_BIT_DELETE: u32 = 0x40;
pub const ACTION_BIT_SET: u32 = 0x100;
pub const ACTION_BIT_GET: u32 = 0x200;
pub const ACTION_BIT_GET_ALL_ALARMS: u32 = 0x800;
pub const ACTION_BIT_GET_ALL_ALARMS_NEXT: u32 = 0x1000;
pub const ACTION_BIT_MIB_UPLOAD: u32 = 0x2000;
pub const ACTION_BIT_MIB_UPLOAD_NEXT: u32 = 0x4000;
pub const ACTION_BIT_MIB_RESET: u32 = 0x8000;
pub const ACTION_BIT_SYNCHRONIZE_TIME: u32 = 0x100_0000;
pub const ACTION_BIT_GET_NEXT: u32 = 0x400_0000;
pub const ACTION_BIT_GET_CURRENT_DATA: u32 = 0x1000_0000;
pub const ACTION_BIT_SET_TABLE: u32 = 0x2000_0000;

pub const ACTIONS_GET: u32 = ACTION_BIT_GET;
pub const ACTIONS_ONU_RW: u32 = ACTION_BIT_GET | ACTION_BIT_SET;
pub const ACTIONS_OLT_RW: u32 = ACTION_BIT_CREATE | ACTION_BIT_DELETE | ACTION_BIT_GET | ACTION_BIT_SET;
pub const ACTIONS_OLT_TABLE: u32 = ACTIONS_OLT_RW | ACTION_BIT_GET_NEXT | ACTION_BIT_SET_TABLE;
pub const ACTIONS_PM: u32 = ACTIONS_OLT_RW | ACTION_BIT_GET_CURRENT_DATA;

/// Each named action bit is the bit of its action code.
pub proof fn lemma_action_bits()
    ensures
        ACTION_BIT_CREATE == spec_action_bit(ACTION_CREATE),
        ACTION_BIT_DELETE == spec_action_bit(ACTION_DELETE),
        ACTION_BIT_SET == spec_action_bit(ACTION_SET),
        ACTION_BIT_GET == spec_action_bit(ACTION_GET),
        ACTION_BIT_GET_ALL_ALARMS == spec_action_bit(ACTION_GET_ALL_ALARMS),
        ACTION_BIT_GET_ALL_ALARMS_NEXT == spec_action_bit(ACTION_GET_ALL_ALARMS_NEXT),
        ACTION_BIT_MIB_UPLOAD == spec_action_bit(ACTION_MIB_UPLOAD),
        ACTION_BIT_MIB_UPLOAD_NEXT == spec_action_bit(ACTION_MIB_UPLOAD_NEXT),
        ACTION_BIT_MIB_RESET == spec_action_bit(ACTION_MIB_RESET),
        ACTION_BIT_SYNCHRONIZE_TIME == spec_action_bit(ACTION_SYNCHRONIZE_TIME),
        ACTION_BIT_GET_NEXT == spec_action_bit(ACTION_GET_NEXT),
        ACTION_BIT_GET_CURRENT_DATA == spec_action_bit(ACTION_GET_CURRENT_DATA),
        ACTION_BIT_SET_TABLE == spec_action_bit(ACTION_SET_TABLE),
{
    assert(0x10u32 == (1u32 << 4u8)) by (bit_vector);
    assert(0x40u32 == (1u32 << 6u8)) by (bit_vector);
    assert(0x100u32 == (1u32 << 8u8)) by (bit_vector);
    assert(0x200u32 == (1u32 << 9u8)) by (bit_vector);
    assert(0x800u32 == (1u32 << 11u8)) by (bit_vector);
    assert(0x1000u32 == (1u32 << 12u8)) by (bit_vector);
    assert(0x2000u32 == (1u32 << 13u8)) by (bit_vector);
    assert(0x4000u32 == (1u32 << 14u8)) by (bit_vector);
    assert(0x8000u32 == (1u32 << 15u8)) by (bit_vector);
    assert(0x100_0000u32 == (1u32 << 24u8)) by (bit_vector);
    assert(0x400_0000u32 == (1u32 << 26u8)) by (bit_vector);
    assert(0x1000_0000u32 == (1u32 << 28u8)) by (bit_vector);
    assert(0x2000_0000u32 == (1u32 << 29u8)) by (bit_vector);
}

pub open spec fn spec_onu_data_attributes() -> Seq<AttributeDefinitionView> {
    seq![
        spec_read_write(1, 1),
    ]
}

fn onu_data_attributes() -> (attributes: &'static [AttributeDefinition])
    ensures
        attribute_views(attributes@) == spec_onu_data_attributes(),
{
    let attributes: &'static [AttributeDefinition] = &[
        AttributeDefinition { index: 1, access: AttributeAccess::ReadWrite, kind: AttributeKind::Scalar { length: 1 }, create: CreateSource::Absent, default: &[], upload: true },
    ];
    proof {
        assert(attributes@[0].default@ =~= Seq::<u8>::empty());
        assert(attribute_views(attributes@) =~= spec_onu_data_attributes());
    }
    attributes
}

pub open spec fn spec_cardholder_attributes() -> Seq<AttributeDefinitionView> {
    seq![
        spec_read_only(1, 1),
        spec_read_write(2, 1),
        spec_read_write(3, 1),
        spec_read_write(4, 20),
        spec_read_only(5, 20),
        spec_read_write(6, 1),
        spec_read_write(7, 1),
        spec_read_write(8, 1),
        spec_read_write(9, 1),
    ]
}

fn cardholder_attributes() -> (attributes: &'static [AttributeDefinition])
    ensures
        attribute_views(attributes@) == spec_cardholder_attributes(),
{
    let attributes: &'static [AttributeDefinition] = &[
        AttributeDefinition { index: 1, access: AttributeAccess::ReadOnly, kind: AttributeKind::Scalar { length: 1 }, create: CreateSource::Absent, default: &[], upload: true },
        AttributeDefinition { index: 2, access: AttributeAccess::ReadWrite, kind: AttributeKind::Scalar { length: 1 }, create: CreateSource::Absent, default: &[], upload: true },
        AttributeDefinition { index: 3, access: AttributeAccess::ReadWrite, kind: AttributeKind::Scalar { length: 1 }, create: CreateSource::Absent, default: &[], upload: true },
        AttributeDefinition { index: 4, access: AttributeAccess::ReadWrite, kind: AttributeKind::Scalar { length: 20 }, create: CreateSource::Absent, default: &[], upload: true },
        AttributeDefinition { index: 5, access: AttributeAccess::ReadOnly, kind: AttributeKind::Scalar { length: 20 }, create: CreateSource::Absent, default: &[], upload: true },
        AttributeDefinition { index: 6, access: AttributeAccess::ReadWrite, kind: AttributeKind::Scalar { length: 1 }, create: CreateSource::Absent, default: &[], upload: true },
        AttributeDefinition { index: 7, access: AttributeAccess::ReadWrite, kind: AttributeKind::Scalar { length: 1 }, create: CreateSource::Absent, default: &[], upload: true },
        AttributeDefinition { index: 8, access: AttributeAccess::ReadWrite, kind: AttributeKind::Scalar { length: 1 }, create: CreateSource::Absent, default: &[], upload: true },
        AttributeDefinition { index: 9, access: AttributeAccess::ReadWrite, kind: AttributeKind::Scalar { length: 1 }, create: CreateSource::Absent, default: &[], upload: true },
    ];
    proof {
        assert(attributes@[0].default@ =~= Seq::<u8>::empty());
        assert(attributes@[1].default@ =~= Seq::<u8>::empty());
        assert(attributes@[2].default@ =~= Seq::<u8>::empty());
        assert(attributes@[3].default@ =~= Seq::<u8>::empty());
        assert(attributes@[4].default@ =~= Seq::<u8>::empty());
        assert(attributes@[5].default@ =~= Seq::<u8>::empty());
        assert(attributes@[6].default@ =~= Seq::<u8>::empty());
        assert(attributes@[7].default@ =~= Seq::<u8>::empty());
        assert(attributes@[8].default@ =~= Seq::<u8>::empty());
        assert(attribute_views(attributes@) =~= spec_cardholder_attributes());
    }
    attributes
}

pub open spec fn spec_circuit_pack_attributes() -> Seq<AttributeDefinitionView> {
    seq![
        spec_read_only(1, 1),
        spec_read_only(2, 1),
        spec_read_only(3, 8),
        spec_read_only(4, 14),
        spec_read_only(5, 4),
        spec_read_write(6, 1),
        spec_read_only(7, 1),
        spec_read_only(8, 1),
        spec_read_only(9, 20),
        spec_read_write(10, 1),
        spec_read_only(11, 1),
        spec_read_only(12, 1),
        spec_read_only(13, 1),
        spec_read_write(14, 4),
    ]
}

fn circuit_pack_attributes() -> (attributes: &'static [AttributeDefinition])
    ensures
        attribute_views(attributes@) == spec_circuit_pack_attributes(),
{
    let attributes: &'static [AttributeDefinition] = &[
        AttributeDefinition { index: 1, access: AttributeAccess::ReadOnly, kind: AttributeKind::Scalar { length: 1 }, create: CreateSource::Absent, default: &[], upload: true },
        AttributeDefinition { index: 2, access: AttributeAccess::ReadOnly, kind: AttributeKind::Scalar { length: 1 }, create: CreateSource::Absent, default: &[], upload: true },
        AttributeDefinition { index: 3, access: AttributeAccess::ReadOnly, kind: AttributeKind::Scalar { length: 8 }, create: CreateSource::Absent, default: &[], upload: true },
        AttributeDefinition { index: 4, access: AttributeAccess::ReadOnly, kind: AttributeKind::Scalar { length: 14 }, create: CreateSource::Absent, default: &[], upload: true },
        AttributeDefinition { index: 5, access: AttributeAccess::ReadOnly, kind: AttributeKind::Scalar { length: 4 }, create: CreateSource::Absent, default: &[], upload: true },
        AttributeDefinition { index: 6, access: AttributeAccess::ReadWrite, kind: AttributeKind::Scalar { length: 1 }, create: CreateSource::Absent, default: &[], upload: true },
        AttributeDefinition { index: 7, access: AttributeAccess::ReadOnly, kind: AttributeKind::Scalar { length: 1 }, create: CreateSource::Absent, default: &[], upload: true },
        AttributeDefinition { index: 8, access: AttributeAccess::ReadOnly, kind: AttributeKind::Scalar { length: 1 }, create: CreateSource::Absent, default: &[], upload: true },
        AttributeDefinition { index: 9, access: AttributeAccess::ReadOnly, kind: AttributeKind::Scalar { length: 20 }, create: CreateSource::Absent, default: &[], upload: true },
        AttributeDefinition { index: 10, access: AttributeAccess::ReadWrite, kind: AttributeKind::Scalar { length: 1 }, create: CreateSource::Absent, default: &[], upload: true },
        AttributeDefinition { index: 11, access: AttributeAccess::ReadOnly, kind: AttributeKind::Scalar { length: 1 }, create: CreateSource::Absent, default: &[], upload: true },
        AttributeDefinition { index: 12, access: AttributeAccess::ReadOnly, kind: AttributeKind::Scalar { length: 1 }, create: CreateSource::Absent, default: &[], upload: true },
        AttributeDefinition { index: 13, access: AttributeAccess::ReadOnly, kind: AttributeKind::Scalar { length: 1 }, create: CreateSource::Absent, default: &[], upload: true },
        AttributeDefinition { index: 14, access: AttributeAccess::ReadWrite, kind: AttributeKind::Scalar { length: 4 }, create: CreateSource::Absent, default: &[], upload: true },
    ];
    proof {
        assert(attributes@[0].default@ =~= Seq::<u8>::empty());
        assert(attributes@[1].default@ =~= Seq::<u8>::empty());
        assert(attributes@[2].default@ =~= Seq::<u8>::empty());
        assert(attributes@[3].default@ =~= Seq::<u8>::empty());
        assert(attributes@[4].default@ =~= Seq::<u8>::empty());
        assert(attributes@[5].default@ =~= Seq::<u8>::empty());
        assert(attributes@[6].default@ =~= Seq::<u8>::empty());
        assert(attributes@[7].default@ =~= Seq::<u8>::empty());
        assert(attributes@[8].default@ =~= Seq::<u8>::empty());
        assert(attributes@[9].default@ =~= Seq::<u8>::empty());
        assert(attributes@[10].default@ =~= Seq::<u8>::empty());
        assert(attributes@[11].default@ =~= Seq::<u8>::empty());
        assert(attributes@[12].default@ =~= Seq::<u8>::empty());
        assert(attributes@[13].default@ =~= Seq::<u8>::empty());
        assert(attribute_views(attributes@) =~= spec_circuit_pack_attributes());
    }
    attributes
}

pub open spec fn spec_software_image_attributes() -> Seq<AttributeDefinitionView> {
    seq![
        spec_read_only(1, 14),
        spec_read_only(2, 1),
        spec_read_only(3, 1),
        spec_read_only(4, 1),
    ]
}

fn software_image_attributes() -> (attributes: &'static [AttributeDefinition])
    ensures
        attribute_views(attributes@) == spec_software_image_attributes(),
{
    let attributes: &'static [AttributeDefinition] = &[
        AttributeDefinition { index: 1, access: AttributeAccess::ReadOnly, kind: AttributeKind::Scalar { length: 14 }, create: CreateSource::Absent, default: &[], upload: true },
        AttributeDefinition { index: 2, access: AttributeAccess::ReadOnly, kind: AttributeKind::Scalar { length: 1 }, create: CreateSource::Absent, default: &[], upload: true },
        AttributeDefinition { index: 3, access: AttributeAccess::ReadOnly, kind: AttributeKind::Scalar { length: 1 }, create: CreateSource::Absent, default: &[], upload: true },
        AttributeDefinition { index: 4, access: AttributeAccess::ReadOnly, kind: AttributeKind::Scalar { length: 1 }, create: CreateSource::Absent, default: &[], upload: true },
    ];
    proof {
        assert(attributes@[0].default@ =~= Seq::<u8>::empty());
        assert(attributes@[1].default@ =~= Seq::<u8>::empty());
        assert(attributes@[2].default@ =~= Seq::<u8>::empty());
        assert(attributes@[3].default@ =~= Seq::<u8>::empty());
        assert(attribute_views(attributes@) =~= spec_software_image_attributes());
    }
    attributes
}

pub open spec fn spec_ethernet_uni_attributes() -> Seq<AttributeDefinitionView> {
    seq![
        spec_read_write(1, 1),
        spec_read_only(2, 1),
        spec_read_write(3, 1),
        spec_read_write(4, 1),
        spec_read_write(5, 1),
        spec_read_only(6, 1),
        spec_read_only(7, 1),
        spec_read_write(8, 2),
        spec_read_write(9, 1),
        spec_read_write(10, 2),
        spec_read_write(11, 1),
        spec_read_write(12, 1),
        spec_read_write(13, 1),
        spec_read_write(14, 1),
        spec_read_write(15, 1),
    ]
}

fn ethernet_uni_attributes() -> (attributes: &'static [AttributeDefinition])
    ensures
        attribute_views(attributes@) == spec_ethernet_uni_attributes(),
{
    let attributes: &'static [AttributeDefinition] = &[
        AttributeDefinition { index: 1, access: AttributeAccess::ReadWrite, kind: AttributeKind::Scalar { length: 1 }, create: CreateSource::Absent, default: &[], upload: true },
        AttributeDefinition { index: 2, access: AttributeAccess::ReadOnly, kind: AttributeKind::Scalar { length: 1 }, create: CreateSource::Absent, default: &[], upload: true },
        AttributeDefinition { index: 3, access: AttributeAccess::ReadWrite, kind: AttributeKind::Scalar { length: 1 }, create: CreateSource::Absent, default: &[], upload: true },
        AttributeDefinition { index: 4, access: AttributeAccess::ReadWrite, kind: AttributeKind::Scalar { length: 1 }, create: CreateSource::Absent, default: &[], upload: true },
        AttributeDefinition { index: 5, access: AttributeAccess::ReadWrite, kind: AttributeKind::Scalar { length: 1 }, create: CreateSource::Absent, default: &[], upload: true },
        AttributeDefinition { index: 6, access: AttributeAccess::ReadOnly, kind: AttributeKind::Scalar { length: 1 }, create: CreateSource::Absent, default: &[], upload: true },
        AttributeDefinition { index: 7, access: AttributeAccess::ReadOnly, kind: AttributeKind::Scalar { length: 1 }, create: CreateSource::Absent, default: &[], upload: true },
        AttributeDefinition { index: 8, access: AttributeAccess::ReadWrite, kind: AttributeKind::Scalar { length: 2 }, create: CreateSource::Absent, default: &[], upload: true },
        AttributeDefinition { index: 9, access: AttributeAccess::ReadWrite, kind: AttributeKind::Scalar { length: 1 }, create: CreateSource::Absent, default: &[], upload: true },
        AttributeDefinition { index: 10, access: AttributeAccess::ReadWrite, kind: AttributeKind::Scalar { length: 2 }, create: CreateSource::Absent, default: &[], upload: true },
        AttributeDefinition { index: 11, access: AttributeAccess::ReadWrite, kind: AttributeKind::Scalar { length: 1 }, create: CreateSource::Absent, default: &[], upload: true },
        AttributeDefinition { index: 12, access: AttributeAccess::ReadWrite, kind: AttributeKind::Scalar { length: 1 }, create: CreateSource::Absent, default: &[], upload: true },
        AttributeDefinition { index: 13, access: AttributeAccess::ReadWrite, kind: AttributeKind::Scalar { length: 1 }, create: CreateSource::Absent, default: &[], upload: true },
        AttributeDefinition { index: 14, access: AttributeAccess::ReadWrite, kind: AttributeKind::Scalar { length: 1 }, create: CreateSource::Absent, default: &[], upload: true },
        AttributeDefinition { index: 15, access: AttributeAccess::ReadWrite, kind: AttributeKind::Scalar { length: 1 }, create: CreateSource::Absent, default: &[], upload: true },
    ];
    proof {
        assert(attributes@[0].default@ =~= Seq::<u8>::empty());
        assert(attributes@[1].default@ =~= Seq::<u8>::empty());
        assert(attributes@[2].default@ =~= Seq::<u8>::empty());
        assert(attributes@[3].default@ =~= Seq::<u8>::empty());
        assert(attributes@[4].default@ =~= Seq::<u8>::empty());
        assert(attributes@[5].default@ =~= Seq::<u8>::empty());
        assert(attributes@[6].default@ =~= Seq::<u8>::empty());
        assert(attributes@[7].default@ =~= Seq::<u8>::empty());
        assert(attributes@[8].default@ =~= Seq::<u8>::empty());
        assert(attributes@[9].default@ =~= Seq::<u8>::empty());
        assert(attributes@[10].default@ =~= Seq::<u8>::empty());
        assert(attributes@[11].default@ =~= Seq::<u8>::empty());
        assert(attributes@[12].default@ =~= Seq::<u8>::empty());
        assert(attributes@[13].default@ =~= Seq::<u8>::empty());
        assert(attributes@[14].default@ =~= Seq::<u8>::empty());
        assert(attribute_views(attributes@) =~= spec_ethernet_uni_attributes());
    }
    attributes
}

pub open spec fn spec_ethernet_pm_attributes() -> Seq<AttributeDefinitionView> {
    seq![
        spec_read_only(1, 1),
        spec_required(spec_read_write(2, 2), 0),
        spec_runtime_only(spec_read_only(3, 4)),
        spec_runtime_only(spec_read_only(4, 4)),
        spec_runtime_only(spec_read_only(5, 4)),
        spec_runtime_only(spec_read_only(6, 4)),
        spec_runtime_only(spec_read_only(7, 4)),
        spec_runtime_only(spec_read_only(8, 4)),
        spec_runtime_only(spec_read_only(9, 4)),
        spec_runtime_only(spec_read_only(10, 4)),
        spec_runtime_only(spec_read_only(11, 4)),
        spec_runtime_only(spec_read_only(12, 4)),
        spec_runtime_only(spec_read_only(13, 4)),
        spec_runtime_only(spec_read_only(14, 4)),
        spec_runtime_only(spec_read_only(15, 4)),
        spec_runtime_only(spec_read_only(16, 4)),
    ]
}

fn ethernet_pm_attributes() -> (attributes: &'static [AttributeDefinition])
    ensures
        attribute_views(attributes@) == spec_ethernet_pm_attributes(),
{
    let attributes: &'static [AttributeDefinition] = &[
        AttributeDefinition { index: 1, access: AttributeAccess::ReadOnly, kind: AttributeKind::Scalar { length: 1 }, create: CreateSource::Absent, default: &[], upload: true },
        AttributeDefinition { index: 2, access: AttributeAccess::ReadWrite, kind: AttributeKind::Scalar { length: 2 }, create: CreateSource::Required { offset: 0 }, default: &[], upload: true },
        AttributeDefinition { index: 3, access: AttributeAccess::ReadOnly, kind: AttributeKind::Scalar { length: 4 }, create: CreateSource::Absent, default: &[], upload: false },
        AttributeDefinition { index: 4, access: AttributeAccess::ReadOnly, kind: AttributeKind::Scalar { length: 4 }, create: CreateSource::Absent, default: &[], upload: false },
        AttributeDefinition { index: 5, access: AttributeAccess::ReadOnly, kind: AttributeKind::Scalar { length: 4 }, create: CreateSource::Absent, default: &[], upload: false },
        AttributeDefinition { index: 6, access: AttributeAccess::ReadOnly, kind: AttributeKind::Scalar { length: 4 }, create: CreateSource::Absent, default: &[], upload: false },
        AttributeDefinition { index: 7, access: AttributeAccess::ReadOnly, kind: AttributeKind::Scalar { length: 4 }, create: CreateSource::Absent, default: &[], upload: false },
        AttributeDefinition { index: 8, access: AttributeAccess::ReadOnly, kind: AttributeKind::Scalar { length: 4 }, create: CreateSource::Absent, default: &[], upload: false },
        AttributeDefinition { index: 9, access: AttributeAccess::ReadOnly, kind: AttributeKind::Scalar { length: 4 }, create: CreateSource::Absent, default: &[], upload: false },
        AttributeDefinition { index: 10, access: AttributeAccess::ReadOnly, kind: AttributeKind::Scalar { length: 4 }, create: CreateSource::Absent, default: &[], upload: false },
        AttributeDefinition { index: 11, access: AttributeAccess::ReadOnly, kind: AttributeKind::Scalar { length: 4 }, create: CreateSource::Absent, default: &[], upload: false },
        AttributeDefinition { index: 12, access: AttributeAccess::ReadOnly, kind: AttributeKind::Scalar { length: 4 }, create: CreateSource::Absent, default: &[], upload: false },
        AttributeDefinition { index: 13, access: AttributeAccess::ReadOnly, kind: AttributeKind::Scalar { length: 4 }, create: CreateSource::Absent, default: &[], upload: false },
        AttributeDefinition { index: 14, access: AttributeAccess::ReadOnly, kind: AttributeKind::Scalar { length: 4 }, create: CreateSource::Absent, default: &[], upload: false },
        AttributeDefinition { index: 15, access: AttributeAccess::ReadOnly, kind: AttributeKind::Scalar { length: 4 }, create: CreateSource::Absent, default: &[], upload: false },
        AttributeDefinition { index: 16, access: AttributeAccess::ReadOnly, kind: AttributeKind::Scalar { length: 4 }, create: CreateSource::Absent, default: &[], upload: false },
    ];
    proof {
        assert(attributes@[0].default@ =~= Seq::<u8>::empty());
        assert(attributes@[1].default@ =~= Seq::<u8>::empty());
        assert(attributes@[2].default@ =~= Seq::<u8>::empty());
        assert(attributes@[3].default@ =~= Seq::<u8>::empty());
        assert(attributes@[4].default@ =~= Seq::<u8>::empty());
        assert(attributes@[5].default@ =~= Seq::<u8>::empty());
        assert(attributes@[6].default@ =~= Seq::<u8>::empty());
        assert(attributes@[7].default@ =~= Seq::<u8>::empty());
        assert(attributes@[8].default@ =~= Seq::<u8>::empty());
        assert(attributes@[9].default@ =~= Seq::<u8>::empty());
        assert(attributes@[10].default@ =~= Seq::<u8>::empty());
        assert(attributes@[11].default@ =~= Seq::<u8>::empty());
        assert(attributes@[12].default@ =~= Seq::<u8>::empty());
        assert(attributes@[13].default@ =~= Seq::<u8>::empty());
        assert(attributes@[14].default@ =~= Seq::<u8>::empty());
        assert(attributes@[15].default@ =~= Seq::<u8>::empty());
        assert(attribute_views(attributes@) =~= spec_ethernet_pm_attributes());
    }
    attributes
}

pub open spec fn spec_mac_bridge_service_attributes() -> Seq<AttributeDefinitionView> {
    seq![
        spec_required(spec_read_write(1, 1), 0),
        spec_required(spec_read_write(2, 1), 1),
        spec_required(spec_read_write(3, 1), 2),
        spec_required(spec_read_write(4, 2), 3),
        spec_required(spec_read_write(5, 2), 5),
        spec_required(spec_read_write(6, 2), 7),
        spec_required(spec_read_write(7, 2), 9),
        spec_required(spec_read_write(8, 1), 11),
        spec_required(spec_read_write(9, 1), 12),
        spec_required(spec_read_write(10, 4), 13),
    ]
}

fn mac_bridge_service_attributes() -> (attributes: &'static [AttributeDefinition])
    ensures
        attribute_views(attributes@) == spec_mac_bridge_service_attributes(),
{
    let attributes: &'static [AttributeDefinition] = &[
        AttributeDefinition { index: 1, access: AttributeAccess::ReadWrite, kind: AttributeKind::Scalar { length: 1 }, create: CreateSource::Required { offset: 0 }, default: &[], upload: true },
        AttributeDefinition { index: 2, access: AttributeAccess::ReadWrite, kind: AttributeKind::Scalar { length: 1 }, create: CreateSource::Required { offset: 1 }, default: &[], upload: true },
        AttributeDefinition { index: 3, access: AttributeAccess::ReadWrite, kind: AttributeKind::Scalar { length: 1 }, create: CreateSource::Required { offset: 2 }, default: &[], upload: true },
        AttributeDefinition { index: 4, access: AttributeAccess::ReadWrite, kind: AttributeKind::Scalar { length: 2 }, create: CreateSource::Required { offset: 3 }, default: &[], upload: true },
        AttributeDefinition { index: 5, access: AttributeAccess::ReadWrite, kind: AttributeKind::Scalar { length: 2 }, create: CreateSource::Required { offset: 5 }, default: &[], upload: true },
        AttributeDefinition { index: 6, access: AttributeAccess::ReadWrite, kind: AttributeKind::Scalar { length: 2 }, create: CreateSource::Required { offset: 7 }, default: &[], upload: true },
        AttributeDefinition { index: 7, access: AttributeAccess::ReadWrite, kind: AttributeKind::Scalar { length: 2 }, create: CreateSource::Required { offset: 9 }, default: &[], upload: true },
        AttributeDefinition { index: 8, access: AttributeAccess::ReadWrite, kind: AttributeKind::Scalar { length: 1 }, create: CreateSource::Required { offset: 11 }, default: &[], upload: true },
        AttributeDefinition { index: 9, access: AttributeAccess::ReadWrite, kind: AttributeKind::Scalar { length: 1 }, create: CreateSource::Required { offset: 12 }, default: &[], upload: true },
        AttributeDefinition { index: 10, access: AttributeAccess::ReadWrite, kind: AttributeKind::Scalar { length: 4 }, create: CreateSource::Required { offset: 13 }, default: &[], upload: true },
    ];
    proof {
        assert(attributes@[0].default@ =~= Seq::<u8>::empty());
        assert(attributes@[1].default@ =~= Seq::<u8>::empty());
        assert(attributes@[2].default@ =~= Seq::<u8>::empty());
        assert(attributes@[3].default@ =~= Seq::<u8>::empty());
        assert(attributes@[4].default@ =~= Seq::<u8>::empty());
        assert(attributes@[5].default@ =~= Seq::<u8>::empty());
        assert(attributes@[6].default@ =~= Seq::<u8>::empty());
        assert(attributes@[7].default@ =~= Seq::<u8>::empty());
        assert(attributes@[8].default@ =~= Seq::<u8>::empty());
        assert(attributes@[9].default@ =~= Seq::<u8>::empty());
        assert(attribute_views(attributes@) =~= spec_mac_bridge_service_attributes());
    }
    attributes
}

pub open spec fn spec_mac_bridge_port_attributes() -> Seq<AttributeDefinitionView> {
    seq![
        spec_required(spec_read_write(1, 2), 0),
        spec_required(spec_read_write(2, 1), 2),
        spec_required(spec_read_write(3, 1), 3),
        spec_required(spec_read_write(4, 2), 4),
        spec_required(spec_read_write(5, 2), 6),
        spec_required(spec_read_write(6, 2), 8),
        spec_required(spec_read_write(7, 1), 10),
        spec_required(spec_read_write(8, 1), 11),
        spec_required(spec_read_write(9, 1), 12),
        spec_read_only(10, 6),
        spec_with_default(spec_read_write(11, 2), seq![255u8, 255u8]),
        spec_with_default(spec_read_write(12, 2), seq![255u8, 255u8]),
        spec_required(spec_read_write(13, 1), 13),
    ]
}

fn mac_bridge_port_attributes() -> (attributes: &'static [AttributeDefinition])
    ensures
        attribute_views(attributes@) == spec_mac_bridge_port_attributes(),
{
    let attributes: &'static [AttributeDefinition] = &[
        AttributeDefinition { index: 1, access: AttributeAccess::ReadWrite, kind: AttributeKind::Scalar { length: 2 }, create: CreateSource::Required { offset: 0 }, default: &[], upload: true },
        AttributeDefinition { index: 2, access: AttributeAccess::ReadWrite, kind: AttributeKind::Scalar { length: 1 }, create: CreateSource::Required { offset: 2 }, default: &[], upload: true },
        AttributeDefinition { index: 3, access: AttributeAccess::ReadWrite, kind: AttributeKind::Scalar { length: 1 }, create: CreateSource::Required { offset: 3 }, default: &[], upload: true },
        AttributeDefinition { index: 4, access: AttributeAccess::ReadWrite, kind: AttributeKind::Scalar { length: 2 }, create: CreateSource::Required { offset: 4 }, default: &[], upload: true },
        AttributeDefinition { index: 5, access: AttributeAccess::ReadWrite, kind: AttributeKind::Scalar { length: 2 }, create: CreateSource::Required { offset: 6 }, default: &[], upload: true },
        AttributeDefinition { index: 6, access: AttributeAccess::ReadWrite, kind: AttributeKind::Scalar { length: 2 }, create: CreateSource::Required { offset: 8 }, default: &[], upload: true },
        AttributeDefinition { index: 7, access: AttributeAccess::ReadWrite, kind: AttributeKind::Scalar { length: 1 }, create: CreateSource::Required { offset: 10 }, default: &[], upload: true },
        AttributeDefinition { index: 8, access: AttributeAccess::ReadWrite, kind: AttributeKind::Scalar { length: 1 }, create: CreateSource::Required { offset: 11 }, default: &[], upload: true },
        AttributeDefinition { index: 9, access: AttributeAccess::ReadWrite, kind: AttributeKind::Scalar { length: 1 }, create: CreateSource::Required { offset: 12 }, default: &[], upload: true },
        AttributeDefinition { index: 10, access: AttributeAccess::ReadOnly, kind: AttributeKind::Scalar { length: 6 }, create: CreateSource::Absent, default: &[], upload: true },
        AttributeDefinition { index: 11, access: AttributeAccess::ReadWrite, kind: AttributeKind::Scalar { length: 2 }, create: CreateSource::Absent, default: &[0xff, 0xff], upload: true },
        AttributeDefinition { index: 12, access: AttributeAccess::ReadWrite, kind: AttributeKind::Scalar { length: 2 }, create: CreateSource::Absent, default: &[0xff, 0xff], upload: true },
        AttributeDefinition { index: 13, access: AttributeAccess::ReadWrite, kind: AttributeKind::Scalar { length: 1 }, create: CreateSource::Required { offset: 13 }, default: &[], upload: true },
    ];
    proof {
        assert(attributes@[0].default@ =~= Seq::<u8>::empty());
        assert(attributes@[1].default@ =~= Seq::<u8>::empty());
        assert(attributes@[2].default@ =~= Seq::<u8>::empty());
        assert(attributes@[3].default@ =~= Seq::<u8>::empty());
        assert(attributes@[4].default@ =~= Seq::<u8>::empty());
        assert(attributes@[5].default@ =~= Seq::<u8>::empty());
        assert(attributes@[6].default@ =~= Seq::<u8>::empty());
        assert(attributes@[7].default@ =~= Seq::<u8>::empty());
        assert(attributes@[8].default@ =~= Seq::<u8>::empty());
        assert(attributes@[9].default@ =~= Seq::<u8>::empty());
        assert(attributes@[10].default@ =~= seq![255u8, 255u8]);
        assert(attributes@[11].default@ =~= seq![255u8, 255u8]);
        assert(attributes@[12].default@ =~= Seq::<u8>::empty());
        assert(attribute_views(attributes@) =~= spec_mac_bridge_port_attributes());
    }
    attributes
}

pub open spec fn spec_mac_bridge_port_pm_attributes() -> Seq<AttributeDefinitionView> {
    seq![
        spec_read_only(1, 1),
        spec_required(spec_read_write(2, 2), 0),
        spec_runtime_only(spec_read_only(3, 4)),
        spec_runtime_only(spec_read_only(4, 4)),
        spec_runtime_only(spec_read_only(5, 4)),
        spec_runtime_only(spec_read_only(6, 4)),
        spec_runtime_only(spec_read_only(7, 4)),
    ]
}

fn mac_bridge_port_pm_attributes() -> (attributes: &'static [AttributeDefinition])
    ensures
        attribute_views(attributes@) == spec_mac_bridge_port_pm_attributes(),
{
    let attributes: &'static [AttributeDefinition] = &[
        AttributeDefinition { index: 1, access: AttributeAccess::ReadOnly, kind: AttributeKind::Scalar { length: 1 }, create: CreateSource::Absent, default: &[], upload: true },
        AttributeDefinition { index: 2, access: AttributeAccess::ReadWrite, kind: AttributeKind::Scalar { length: 2 }, create: CreateSource::Required { offset: 0 }, default: &[], upload: true },
        AttributeDefinition { index: 3, access: AttributeAccess::ReadOnly, kind: AttributeKind::Scalar { length: 4 }, create: CreateSource::Absent, default: &[], upload: false },
        AttributeDefinition { index: 4, access: AttributeAccess::ReadOnly, kind: AttributeKind::Scalar { length: 4 }, create: CreateSource::Absent, default: &[], upload: false },
        AttributeDefinition { index: 5, access: AttributeAccess::ReadOnly, kind: AttributeKind::Scalar { length: 4 }, create: CreateSource::Absent, default: &[], upload: false },
        AttributeDefinition { index: 6, access: AttributeAccess::ReadOnly, kind: AttributeKind::Scalar { length: 4 }, create: CreateSource::Absent, default: &[], upload: false },
        AttributeDefinition { index: 7, access: AttributeAccess::ReadOnly, kind: AttributeKind::Scalar { length: 4 }, create: CreateSource::Absent, default: &[], upload: false },
    ];
    proof {
        assert(attributes@[0].default@ =~= Seq::<u8>::empty());
        assert(attributes@[1].default@ =~= Seq::<u8>::empty());
        assert(attributes@[2].default@ =~= Seq::<u8>::empty());
        assert(attributes@[3].default@ =~= Seq::<u8>::empty());
        assert(attributes@[4].default@ =~= Seq::<u8>::empty());
        assert(attributes@[5].default@ =~= Seq::<u8>::empty());
        assert(attributes@[6].default@ =~= Seq::<u8>::empty());
        assert(attribute_views(attributes@) =~= spec_mac_bridge_port_pm_attributes());
    }
    attributes
}

pub open spec fn spec_filter_preassign_attributes() -> Seq<AttributeDefinitionView> {
    seq![
        spec_read_write(1, 1),
        spec_read_write(2, 1),
        spec_read_write(3, 1),
        spec_read_write(4, 1),
        spec_read_write(5, 1),
        spec_read_write(6, 1),
        spec_read_write(7, 1),
        spec_read_write(8, 1),
        spec_read_write(9, 1),
        spec_read_write(10, 1),
    ]
}

fn filter_preassign_attributes() -> (attributes: &'static [AttributeDefinition])
    ensures
        attribute_views(attributes@) == spec_filter_preassign_attributes(),
{
    let attributes: &'static [AttributeDefinition] = &[
        AttributeDefinition { index: 1, access: AttributeAccess::ReadWrite, kind: AttributeKind::Scalar { length: 1 }, create: CreateSource::Absent, default: &[], upload: true },
        AttributeDefinition { index: 2, access: AttributeAccess::ReadWrite, kind: AttributeKind::Scalar { length: 1 }, create: CreateSource::Absent, default: &[], upload: true },
        AttributeDefinition { index: 3, access: AttributeAccess::ReadWrite, kind: AttributeKind::Scalar { length: 1 }, create: CreateSource::Absent, default: &[], upload: true },
        AttributeDefinition { index: 4, access: AttributeAccess::ReadWrite, kind: AttributeKind::Scalar { length: 1 }, create: CreateSource::Absent, default: &[], upload: true },
        AttributeDefinition { index: 5, access: AttributeAccess::ReadWrite, kind: AttributeKind::Scalar { length: 1 }, create: CreateSource::Absent, default: &[], upload: true },
        AttributeDefinition { index: 6, access: AttributeAccess::ReadWrite, kind: AttributeKind::Scalar { length: 1 }, create: CreateSource::Absent, default: &[], upload: true },
        AttributeDefinition { index: 7, access: AttributeAccess::ReadWrite, kind: AttributeKind::Scalar { length: 1 }, create: CreateSource::Absent, default: &[], upload: true },
        AttributeDefinition { index: 8, access: AttributeAccess::ReadWrite, kind: AttributeKind::Scalar { length: 1 }, create: CreateSource::Absent, default: &[], upload: true },
        AttributeDefinition { index: 9, access: AttributeAccess::ReadWrite, kind: AttributeKind::Scalar { length: 1 }, create: CreateSource::Absent, default: &[], upload: true },
        AttributeDefinition { index: 10, access: AttributeAccess::ReadWrite, kind: AttributeKind::Scalar { length: 1 }, create: CreateSource::Absent, default: &[], upload: true },
    ];
    proof {
        assert(attributes@[0].default@ =~= Seq::<u8>::empty());
        assert(attributes@[1].default@ =~= Seq::<u8>::empty());
        assert(attributes@[2].default@ =~= Seq::<u8>::empty());
        assert(attributes@[3].default@ =~= Seq::<u8>::empty());
        assert(attributes@[4].default@ =~= Seq::<u8>::empty());
        assert(attributes@[5].default@ =~= Seq::<u8>::empty());
        assert(attributes@[6].default@ =~= Seq::<u8>::empty());
        assert(attributes@[7].default@ =~= Seq::<u8>::empty());
        assert(attributes@[8].default@ =~= Seq::<u8>::empty());
        assert(attributes@[9].default@ =~= Seq::<u8>::empty());
        assert(attribute_views(attributes@) =~= spec_filter_preassign_attributes());
    }
    attributes
}

pub open spec fn spec_vlan_filter_attributes() -> Seq<AttributeDefinitionView> {
    seq![
        spec_required(spec_read_write(1, 24), 0),
        spec_required(spec_read_write(2, 1), 24),
        spec_required(spec_read_write(3, 1), 25),
    ]
}

fn vlan_filter_attributes() -> (attributes: &'static [AttributeDefinition])
    ensures
        attribute_views(attributes@) == spec_vlan_filter_attributes(),
{
    let attributes: &'static [AttributeDefinition] = &[
        AttributeDefinition { index: 1, access: AttributeAccess::ReadWrite, kind: AttributeKind::Scalar { length: 24 }, create: CreateSource::Required { offset: 0 }, default: &[], upload: true },
        AttributeDefinition { index: 2, access: AttributeAccess::ReadWrite, kind: AttributeKind::Scalar { length: 1 }, create: CreateSource::Required { offset: 24 }, default: &[], upload: true },
        AttributeDefinition { index: 3, access: AttributeAccess::ReadWrite, kind: AttributeKind::Scalar { length: 1 }, create: CreateSource::Required { offset: 25 }, default: &[], upload: true },
    ];
    proof {
        assert(attributes@[0].default@ =~= Seq::<u8>::empty());
        assert(attributes@[1].default@ =~= Seq::<u8>::empty());
        assert(attributes@[2].default@ =~= Seq::<u8>::empty());
        assert(attribute_views(attributes@) =~= spec_vlan_filter_attributes());
    }
    attributes
}

pub open spec fn spec_ethernet_pm_2_attributes() -> Seq<AttributeDefinitionView> {
    seq![
        spec_read_only(1, 1),
        spec_required(spec_read_write(2, 2), 0),
        spec_runtime_only(spec_read_only(3, 4)),
    ]
}

fn ethernet_pm_2_attributes() -> (attributes: &'static [AttributeDefinition])
    ensures
        attribute_views(attributes@) == spec_ethernet_pm_2_attributes(),
{
    let attributes: &'static [AttributeDefinition] = &[
        AttributeDefinition { index: 1, access: AttributeAccess::ReadOnly, kind: AttributeKind::Scalar { length: 1 }, create: CreateSource::Absent, default: &[], upload: true },
        AttributeDefinition { index: 2, access: AttributeAccess::ReadWrite, kind: AttributeKind::Scalar { length: 2 }, create: CreateSource::Required { offset: 0 }, default: &[], upload: true },
        AttributeDefinition { index: 3, access: AttributeAccess::ReadOnly, kind: AttributeKind::Scalar { length: 4 }, create: CreateSource::Absent, default: &[], upload: false },
    ];
    proof {
        assert(attributes@[0].default@ =~= Seq::<u8>::empty());
        assert(attributes@[1].default@ =~= Seq::<u8>::empty());
        assert(attributes@[2].default@ =~= Seq::<u8>::empty());
        assert(attribute_views(attributes@) =~= spec_ethernet_pm_2_attributes());
    }
    attributes
}

pub open spec fn spec_ieee_8021p_mapper_attributes() -> Seq<AttributeDefinitionView> {
    seq![
        spec_required(spec_read_write(1, 2), 0),
        spec_required(spec_read_write(2, 2), 2),
        spec_required(spec_read_write(3, 2), 4),
        spec_required(spec_read_write(4, 2), 6),
        spec_required(spec_read_write(5, 2), 8),
        spec_required(spec_read_write(6, 2), 10),
        spec_required(spec_read_write(7, 2), 12),
        spec_required(spec_read_write(8, 2), 14),
        spec_required(spec_read_write(9, 2), 16),
        spec_required(spec_read_write(10, 1), 18),
        spec_read_write(11, 24),
        spec_required(spec_read_write(12, 1), 19),
        spec_optional(spec_read_write(13, 1), 20),
    ]
}

fn ieee_8021p_mapper_attributes() -> (attributes: &'static [AttributeDefinition])
    ensures
        attribute_views(attributes@) == spec_ieee_8021p_mapper_attributes(),
{
    let attributes: &'static [AttributeDefinition] = &[
        AttributeDefinition { index: 1, access: AttributeAccess::ReadWrite, kind: AttributeKind::Scalar { length: 2 }, create: CreateSource::Required { offset: 0 }, default: &[], upload: true },
        AttributeDefinition { index: 2, access: AttributeAccess::ReadWrite, kind: AttributeKind::Scalar { length: 2 }, create: CreateSource::Required { offset: 2 }, default: &[], upload: true },
        AttributeDefinition { index: 3, access: AttributeAccess::ReadWrite, kind: AttributeKind::Scalar { length: 2 }, create: CreateSource::Required { offset: 4 }, default: &[], upload: true },
        AttributeDefinition { index: 4, access: AttributeAccess::ReadWrite, kind: AttributeKind::Scalar { length: 2 }, create: CreateSource::Required { offset: 6 }, default: &[], upload: true },
        AttributeDefinition { index: 5, access: AttributeAccess::ReadWrite, kind: AttributeKind::Scalar { length: 2 }, create: CreateSource::Required { offset: 8 }, default: &[], upload: true },
        AttributeDefinition { index: 6, access: AttributeAccess::ReadWrite, kind: AttributeKind::Scalar { length: 2 }, create: CreateSource::Required { offset: 10 }, default: &[], upload: true },
        AttributeDefinition { index: 7, access: AttributeAccess::ReadWrite, kind: AttributeKind::Scalar { length: 2 }, create: CreateSource::Required { offset: 12 }, default: &[], upload: true },
        AttributeDefinition { index: 8, access: AttributeAccess::ReadWrite, kind: AttributeKind::Scalar { length: 2 }, create: CreateSource::Required { offset: 14 }, default: &[], upload: true },
        AttributeDefinition { index: 9, access: AttributeAccess::ReadWrite, kind: AttributeKind::Scalar { length: 2 }, create: CreateSource::Required { offset: 16 }, default: &[], upload: true },
        AttributeDefinition { index: 10, access: AttributeAccess::ReadWrite, kind: AttributeKind::Scalar { length: 1 }, create: CreateSource::Required { offset: 18 }, default: &[], upload: true },
        AttributeDefinition { index: 11, access: AttributeAccess::ReadWrite, kind: AttributeKind::Scalar { length: 24 }, create: CreateSource::Absent, default: &[], upload: true },
        AttributeDefinition { index: 12, access: AttributeAccess::ReadWrite, kind: AttributeKind::Scalar { length: 1 }, create: CreateSource::Required { offset: 19 }, default: &[], upload: true },
        AttributeDefinition { index: 13, access: AttributeAccess::ReadWrite, kind: AttributeKind::Scalar { length: 1 }, create: CreateSource::Optional { offset: 20 }, default: &[], upload: true },
    ];
    proof {
        assert(attributes@[0].default@ =~= Seq::<u8>::empty());
        assert(attributes@[1].default@ =~= Seq::<u8>::empty());
        assert(attributes@[2].default@ =~= Seq::<u8>::empty());
        assert(attributes@[3].default@ =~= Seq::<u8>::empty());
        assert(attributes@[4].default@ =~= Seq::<u8>::empty());
        assert(attributes@[5].default@ =~= Seq::<u8>::empty());
        assert(attributes@[6].default@ =~= Seq::<u8>::empty());
        assert(attributes@[7].default@ =~= Seq::<u8>::empty());
        assert(attributes@[8].default@ =~= Seq::<u8>::empty());
        assert(attributes@[9].default@ =~= Seq::<u8>::empty());
        assert(attributes@[10].default@ =~= Seq::<u8>::empty());
        assert(attributes@[11].default@ =~= Seq::<u8>::empty());
        assert(attributes@[12].default@ =~= Seq::<u8>::empty());
        assert(attribute_views(attributes@) =~= spec_ieee_8021p_mapper_attributes());
    }
    attributes
}

pub open spec fn spec_olt_g_attributes() -> Seq<AttributeDefinitionView> {
    seq![
        spec_read_write(1, 4),
        spec_read_write(2, 20),
        spec_read_write(3, 14),
        spec_read_write(4, 14),
    ]
}

fn olt_g_attributes() -> (attributes: &'static [AttributeDefinition])
    ensures
        attribute_views(attributes@) == spec_olt_g_attributes(),
{
    let attributes: &'static [AttributeDefinition] = &[
        AttributeDefinition { index: 1, access: AttributeAccess::ReadWrite, kind: AttributeKind::Scalar { length: 4 }, create: CreateSource::Absent, default: &[], upload: true },
        AttributeDefinition { index: 2, access: AttributeAccess::ReadWrite, kind: AttributeKind::Scalar { length: 20 }, create: CreateSource::Absent, default: &[], upload: true },
        AttributeDefinition { index: 3, access: AttributeAccess::ReadWrite, kind: AttributeKind::Scalar { length: 14 }, create: CreateSource::Absent, default: &[], upload: true },
        AttributeDefinition { index: 4, access: AttributeAccess::ReadWrite, kind: AttributeKind::Scalar { length: 14 }, create: CreateSource::Absent, default: &[], upload: true },
    ];
    proof {
        assert(attributes@[0].default@ =~= Seq::<u8>::empty());
        assert(attributes@[1].default@ =~= Seq::<u8>::empty());
        assert(attributes@[2].default@ =~= Seq::<u8>::empty());
        assert(attributes@[3].default@ =~= Seq::<u8>::empty());
        assert(attribute_views(attributes@) =~= spec_olt_g_attributes());
    }
    attributes
}

pub open spec fn spec_power_shedding_attributes() -> Seq<AttributeDefinitionView> {
    seq![
        spec_read_write(1, 2),
        spec_read_write(2, 2),
        spec_read_write(4, 2),
        spec_read_write(5, 2),
        spec_read_write(6, 2),
        spec_read_write(7, 2),
        spec_read_write(8, 2),
        spec_read_write(9, 2),
        spec_read_write(10, 2),
        spec_read_write(11, 2),
        spec_read_only(12, 1),
    ]
}

fn power_shedding_attributes() -> (attributes: &'static [AttributeDefinition])
    ensures
        attribute_views(attributes@) == spec_power_shedding_attributes(),
{
    let attributes: &'static [AttributeDefinition] = &[
        AttributeDefinition { index: 1, access: AttributeAccess::ReadWrite, kind: AttributeKind::Scalar { length: 2 }, create: CreateSource::Absent, default: &[], upload: true },
        AttributeDefinition { index: 2, access: AttributeAccess::ReadWrite, kind: AttributeKind::Scalar { length: 2 }, create: CreateSource::Absent, default: &[], upload: true },
        AttributeDefinition { index: 4, access: AttributeAccess::ReadWrite, kind: AttributeKind::Scalar { length: 2 }, create: CreateSource::Absent, default: &[], upload: true },
        AttributeDefinition { index: 5, access: AttributeAccess::ReadWrite, kind: AttributeKind::Scalar { length: 2 }, create: CreateSource::Absent, default: &[], upload: true },
        AttributeDefinition { index: 6, access: AttributeAccess::ReadWrite, kind: AttributeKind::Scalar { length: 2 }, create: CreateSource::Absent, default: &[], upload: true },
        AttributeDefinition { index: 7, access: AttributeAccess::ReadWrite, kind: AttributeKind::Scalar { length: 2 }, create: CreateSource::Absent, default: &[], upload: true },
        AttributeDefinition { index: 8, access: AttributeAccess::ReadWrite, kind: AttributeKind::Scalar { length: 2 }, create: CreateSource::Absent, default: &[], upload: true },
        AttributeDefinition { index: 9, access: AttributeAccess::ReadWrite, kind: AttributeKind::Scalar { length: 2 }, create: CreateSource::Absent, default: &[], upload: true },
        AttributeDefinition { index: 10, access: AttributeAccess::ReadWrite, kind: AttributeKind::Scalar { length: 2 }, create: CreateSource::Absent, default: &[], upload: true },
        AttributeDefinition { index: 11, access: AttributeAccess::ReadWrite, kind: AttributeKind::Scalar { length: 2 }, create: CreateSource::Absent, default: &[], upload: true },
        AttributeDefinition { index: 12, access: AttributeAccess::ReadOnly, kind: AttributeKind::Scalar { length: 1 }, create: CreateSource::Absent, default: &[], upload: true },
    ];
    proof {
        assert(attributes@[0].default@ =~= Seq::<u8>::empty());
        assert(attributes@[1].default@ =~= Seq::<u8>::empty());
        assert(attributes@[2].default@ =~= Seq::<u8>::empty());
        assert(attributes@[3].default@ =~= Seq::<u8>::empty());
        assert(attributes@[4].default@ =~= Seq::<u8>::empty());
        assert(attributes@[5].default@ =~= Seq::<u8>::empty());
        assert(attributes@[6].default@ =~= Seq::<u8>::empty());
        assert(attributes@[7].default@ =~= Seq::<u8>::empty());
        assert(attributes@[8].default@ =~= Seq::<u8>::empty());
        assert(attributes@[9].default@ =~= Seq::<u8>::empty());
        assert(attributes@[10].default@ =~= Seq::<u8>::empty());
        assert(attribute_views(attributes@) =~= spec_power_shedding_attributes());
    }
    attributes
}

pub open spec fn spec_extended_vlan_attributes() -> Seq<AttributeDefinitionView> {
    seq![
        spec_required(spec_read_write(1, 1), 0),
        spec_with_default(spec_read_only(2, 2), seq![0u8, 32u8]),
        spec_with_default(spec_read_write(3, 2), seq![129u8, 0u8]),
        spec_with_default(spec_read_write(4, 2), seq![129u8, 0u8]),
        spec_read_write(5, 1),
        spec_read_write_table(6, 16),
        spec_required(spec_read_write(7, 2), 1),
        spec_read_write(8, 24),
    ]
}

fn extended_vlan_attributes() -> (attributes: &'static [AttributeDefinition])
    ensures
        attribute_views(attributes@) == spec_extended_vlan_attributes(),
{
    let attributes: &'static [AttributeDefinition] = &[
        AttributeDefinition { index: 1, access: AttributeAccess::ReadWrite, kind: AttributeKind::Scalar { length: 1 }, create: CreateSource::Required { offset: 0 }, default: &[], upload: true },
        AttributeDefinition { index: 2, access: AttributeAccess::ReadOnly, kind: AttributeKind::Scalar { length: 2 }, create: CreateSource::Absent, default: &[0x0, 0x20], upload: true },
        AttributeDefinition { index: 3, access: AttributeAccess::ReadWrite, kind: AttributeKind::Scalar { length: 2 }, create: CreateSource::Absent, default: &[0x81, 0x0], upload: true },
        AttributeDefinition { index: 4, access: AttributeAccess::ReadWrite, kind: AttributeKind::Scalar { length: 2 }, create: CreateSource::Absent, default: &[0x81, 0x0], upload: true },
        AttributeDefinition { index: 5, access: AttributeAccess::ReadWrite, kind: AttributeKind::Scalar { length: 1 }, create: CreateSource::Absent, default: &[], upload: true },
        AttributeDefinition { index: 6, access: AttributeAccess::ReadWrite, kind: AttributeKind::Table { row_length: 16 }, create: CreateSource::Absent, default: &[], upload: false },
        AttributeDefinition { index: 7, access: AttributeAccess::ReadWrite, kind: AttributeKind::Scalar { length: 2 }, create: CreateSource::Required { offset: 1 }, default: &[], upload: true },
        AttributeDefinition { index: 8, access: AttributeAccess::ReadWrite, kind: AttributeKind::Scalar { length: 24 }, create: CreateSource::Absent, default: &[], upload: true },
    ];
    proof {
        assert(attributes@[0].default@ =~= Seq::<u8>::empty());
        assert(attributes@[1].default@ =~= seq![0u8, 32u8]);
        assert(attributes@[2].default@ =~= seq![129u8, 0u8]);
        assert(attributes@[3].default@ =~= seq![129u8, 0u8]);
        assert(attributes@[4].default@ =~= Seq::<u8>::empty());
        assert(attributes@[5].default@ =~= Seq::<u8>::empty());
        assert(attributes@[6].default@ =~= Seq::<u8>::empty());
        assert(attributes@[7].default@ =~= Seq::<u8>::empty());
        assert(attribute_views(attributes@) =~= spec_extended_vlan_attributes());
    }
    attributes
}

pub open spec fn spec_onu_g_attributes() -> Seq<AttributeDefinitionView> {
    seq![
        spec_read_only(1, 4),
        spec_read_only(2, 14),
        spec_read_only(3, 8),
        spec_read_only(4, 1),
        spec_read_only(5, 1),
        spec_read_write(6, 1),
        spec_read_write(7, 1),
        spec_read_only(8, 1),
        spec_read_only(9, 1),
        spec_read_only(10, 24),
        spec_read_only(11, 12),
        spec_read_write(12, 1),
        spec_read_only(13, 1),
    ]
}

fn onu_g_attributes() -> (attributes: &'static [AttributeDefinition])
    ensures
        attribute_views(attributes@) == spec_onu_g_attributes(),
{
    let attributes: &'static [AttributeDefinition] = &[
        AttributeDefinition { index: 1, access: AttributeAccess::ReadOnly, kind: AttributeKind::Scalar { length: 4 }, create: CreateSource::Absent, default: &[], upload: true },
        AttributeDefinition { index: 2, access: AttributeAccess::ReadOnly, kind: AttributeKind::Scalar { length: 14 }, create: CreateSource::Absent, default: &[], upload: true },
        AttributeDefinition { index: 3, access: AttributeAccess::ReadOnly, kind: AttributeKind::Scalar { length: 8 }, create: CreateSource::Absent, default: &[], upload: true },
        AttributeDefinition { index: 4, access: AttributeAccess::ReadOnly, kind: AttributeKind::Scalar { length: 1 }, create: CreateSource::Absent, default: &[], upload: true },
        AttributeDefinition { index: 5, access: AttributeAccess::ReadOnly, kind: AttributeKind::Scalar { length: 1 }, create: CreateSource::Absent, default: &[], upload: true },
        AttributeDefinition { index: 6, access: AttributeAccess::ReadWrite, kind: AttributeKind::Scalar { length: 1 }, create: CreateSource::Absent, default: &[], upload: true },
        AttributeDefinition { index: 7, access: AttributeAccess::ReadWrite, kind: AttributeKind::Scalar { length: 1 }, create: CreateSource::Absent, default: &[], upload: true },
        AttributeDefinition { index: 8, access: AttributeAccess::ReadOnly, kind: AttributeKind::Scalar { length: 1 }, create: CreateSource::Absent, default: &[], upload: true },
        AttributeDefinition { index: 9, access: AttributeAccess::ReadOnly, kind: AttributeKind::Scalar { length: 1 }, create: CreateSource::Absent, default: &[], upload: true },
        AttributeDefinition { index: 10, access: AttributeAccess::ReadOnly, kind: AttributeKind::Scalar { length: 24 }, create: CreateSource::Absent, default: &[], upload: true },
        AttributeDefinition { index: 11, access: AttributeAccess::ReadOnly, kind: AttributeKind::Scalar { length: 12 }, create: CreateSource::Absent, default: &[], upload: true },
        AttributeDefinition { index: 12, access: AttributeAccess::ReadWrite, kind: AttributeKind::Scalar { length: 1 }, create: CreateSource::Absent, default: &[], upload: true },
        AttributeDefinition { index: 13, access: AttributeAccess::ReadOnly, kind: AttributeKind::Scalar { length: 1 }, create: CreateSource::Absent, default: &[], upload: true },
    ];
    proof {
        assert(attributes@[0].default@ =~= Seq::<u8>::empty());
        assert(attributes@[1].default@ =~= Seq::<u8>::empty());
        assert(attributes@[2].default@ =~= Seq::<u8>::empty());
        assert(attributes@[3].default@ =~= Seq::<u8>::empty());
        assert(attributes@[4].default@ =~= Seq::<u8>::empty());
        assert(attributes@[5].default@ =~= Seq::<u8>::empty());
        assert(attributes@[6].default@ =~= Seq::<u8>::empty());
        assert(attributes@[7].default@ =~= Seq::<u8>::empty());
        assert(attributes@[8].default@ =~= Seq::<u8>::empty());
        assert(attributes@[9].default@ =~= Seq::<u8>::empty());
        assert(attributes@[10].default@ =~= Seq::<u8>::empty());
        assert(attributes@[11].default@ =~= Seq::<u8>::empty());
        assert(attributes@[12].default@ =~= Seq::<u8>::empty());
        assert(attribute_views(attributes@) =~= spec_onu_g_attributes());
    }
    attributes
}

pub open spec fn spec_onu2_g_attributes() -> Seq<AttributeDefinitionView> {
    seq![
        spec_read_only(1, 20),
        spec_read_only(2, 1),
        spec_read_only(3, 2),
        spec_read_only(4, 1),
        spec_read_write(5, 1),
        spec_read_only(6, 2),
        spec_read_only(7, 1),
        spec_read_only(8, 1),
        spec_read_only(9, 2),
        spec_read_only(10, 4),
        spec_read_only(11, 2),
        spec_read_write(12, 1),
        spec_read_only(13, 2),
        spec_read_write(14, 2),
    ]
}

fn onu2_g_attributes() -> (attributes: &'static [AttributeDefinition])
    ensures
        attribute_views(attributes@) == spec_onu2_g_attributes(),
{
    let attributes: &'static [AttributeDefinition] = &[
        AttributeDefinition { index: 1, access: AttributeAccess::ReadOnly, kind: AttributeKind::Scalar { length: 20 }, create: CreateSource::Absent, default: &[], upload: true },
        AttributeDefinition { index: 2, access: AttributeAccess::ReadOnly, kind: AttributeKind::Scalar { length: 1 }, create: CreateSource::Absent, default: &[], upload: true },
        AttributeDefinition { index: 3, access: AttributeAccess::ReadOnly, kind: AttributeKind::Scalar { length: 2 }, create: CreateSource::Absent, default: &[], upload: true },
        AttributeDefinition { index: 4, access: AttributeAccess::ReadOnly, kind: AttributeKind::Scalar { length: 1 }, create: CreateSource::Absent, default: &[], upload: true },
        AttributeDefinition { index: 5, access: AttributeAccess::ReadWrite, kind: AttributeKind::Scalar { length: 1 }, create: CreateSource::Absent, default: &[], upload: true },
        AttributeDefinition { index: 6, access: AttributeAccess::ReadOnly, kind: AttributeKind::Scalar { length: 2 }, create: CreateSource::Absent, default: &[], upload: true },
        AttributeDefinition { index: 7, access: AttributeAccess::ReadOnly, kind: AttributeKind::Scalar { length: 1 }, create: CreateSource::Absent, default: &[], upload: true },
        AttributeDefinition { index: 8, access: AttributeAccess::ReadOnly, kind: AttributeKind::Scalar { length: 1 }, create: CreateSource::Absent, default: &[], upload: true },
        AttributeDefinition { index: 9, access: AttributeAccess::ReadOnly, kind: AttributeKind::Scalar { length: 2 }, create: CreateSource::Absent, default: &[], upload: true },
        AttributeDefinition { index: 10, access: AttributeAccess::ReadOnly, kind: AttributeKind::Scalar { length: 4 }, create: CreateSource::Absent, default: &[], upload: true },
        AttributeDefinition { index: 11, access: AttributeAccess::ReadOnly, kind: AttributeKind::Scalar { length: 2 }, create: CreateSource::Absent, default: &[], upload: true },
        AttributeDefinition { index: 12, access: AttributeAccess::ReadWrite, kind: AttributeKind::Scalar { length: 1 }, create: CreateSource::Absent, default: &[], upload: true },
        AttributeDefinition { index: 13, access: AttributeAccess::ReadOnly, kind: AttributeKind::Scalar { length: 2 }, create: CreateSource::Absent, default: &[], upload: true },
        AttributeDefinition { index: 14, access: AttributeAccess::ReadWrite, kind: AttributeKind::Scalar { length: 2 }, create: CreateSource::Absent, default: &[], upload: true },
    ];
    proof {
        assert(attributes@[0].default@ =~= Seq::<u8>::empty());
        assert(attributes@[1].default@ =~= Seq::<u8>::empty());
        assert(attributes@[2].default@ =~= Seq::<u8>::empty());
        assert(attributes@[3].default@ =~= Seq::<u8>::empty());
        assert(attributes@[4].default@ =~= Seq::<u8>::empty());
        assert(attributes@[5].default@ =~= Seq::<u8>::empty());
        assert(attributes@[6].default@ =~= Seq::<u8>::empty());
        assert(attributes@[7].default@ =~= Seq::<u8>::empty());
        assert(attributes@[8].default@ =~= Seq::<u8>::empty());
        assert(attributes@[9].default@ =~= Seq::<u8>::empty());
        assert(attributes@[10].default@ =~= Seq::<u8>::empty());
        assert(attributes@[11].default@ =~= Seq::<u8>::empty());
        assert(attributes@[12].default@ =~= Seq::<u8>::empty());
        assert(attributes@[13].default@ =~= Seq::<u8>::empty());
        assert(attribute_views(attributes@) =~= spec_onu2_g_attributes());
    }
    attributes
}

pub open spec fn spec_tcont_attributes() -> Seq<AttributeDefinitionView> {
    seq![
        spec_with_default(spec_read_write(1, 2), seq![255u8, 255u8]),
        spec_with_default(spec_read_only(2, 1), seq![1u8]),
        spec_read_write(3, 1),
    ]
}

fn tcont_attributes() -> (attributes: &'static [AttributeDefinition])
    ensures
        attribute_views(attributes@) == spec_tcont_attributes(),
{
    let attributes: &'static [AttributeDefinition] = &[
        AttributeDefinition { index: 1, access: AttributeAccess::ReadWrite, kind: AttributeKind::Scalar { length: 2 }, create: CreateSource::Absent, default: &[0xff, 0xff], upload: true },
        AttributeDefinition { index: 2, access: AttributeAccess::ReadOnly, kind: AttributeKind::Scalar { length: 1 }, create: CreateSource::Absent, default: &[0x1], upload: true },
        AttributeDefinition { index: 3, access: AttributeAccess::ReadWrite, kind: AttributeKind::Scalar { length: 1 }, create: CreateSource::Absent, default: &[], upload: true },
    ];
    proof {
        assert(attributes@[0].default@ =~= seq![255u8, 255u8]);
        assert(attributes@[1].default@ =~= seq![1u8]);
        assert(attributes@[2].default@ =~= Seq::<u8>::empty());
        assert(attribute_views(attributes@) =~= spec_tcont_attributes());
    }
    attributes
}

pub open spec fn spec_ani_g_attributes() -> Seq<AttributeDefinitionView> {
    seq![
        spec_read_only(1, 1),
        spec_read_only(2, 2),
        spec_read_write(3, 2),
        spec_read_only(4, 1),
        spec_read_only(5, 1),
        spec_read_write(6, 1),
        spec_read_write(7, 1),
        spec_read_write(8, 1),
        spec_read_write(9, 1),
        spec_read_only(10, 2),
        spec_read_write(11, 1),
        spec_read_write(12, 1),
        spec_read_only(13, 2),
        spec_read_only(14, 2),
        spec_read_write(15, 1),
        spec_read_write(16, 1),
    ]
}

fn ani_g_attributes() -> (attributes: &'static [AttributeDefinition])
    ensures
        attribute_views(attributes@) == spec_ani_g_attributes(),
{
    let attributes: &'static [AttributeDefinition] = &[
        AttributeDefinition { index: 1, access: AttributeAccess::ReadOnly, kind: AttributeKind::Scalar { length: 1 }, create: CreateSource::Absent, default: &[], upload: true },
        AttributeDefinition { index: 2, access: AttributeAccess::ReadOnly, kind: AttributeKind::Scalar { length: 2 }, create: CreateSource::Absent, default: &[], upload: true },
        AttributeDefinition { index: 3, access: AttributeAccess::ReadWrite, kind: AttributeKind::Scalar { length: 2 }, create: CreateSource::Absent, default: &[], upload: true },
        AttributeDefinition { index: 4, access: AttributeAccess::ReadOnly, kind: AttributeKind::Scalar { length: 1 }, create: CreateSource::Absent, default: &[], upload: true },
        AttributeDefinition { index: 5, access: AttributeAccess::ReadOnly, kind: AttributeKind::Scalar { length: 1 }, create: CreateSource::Absent, default: &[], upload: true },
        AttributeDefinition { index: 6, access: AttributeAccess::ReadWrite, kind: AttributeKind::Scalar { length: 1 }, create: CreateSource::Absent, default: &[], upload: true },
        AttributeDefinition { index: 7, access: AttributeAccess::ReadWrite, kind: AttributeKind::Scalar { length: 1 }, create: CreateSource::Absent, default: &[], upload: true },
        AttributeDefinition { index: 8, access: AttributeAccess::ReadWrite, kind: AttributeKind::Scalar { length: 1 }, create: CreateSource::Absent, default: &[], upload: true },
        AttributeDefinition { index: 9, access: AttributeAccess::ReadWrite, kind: AttributeKind::Scalar { length: 1 }, create: CreateSource::Absent, default: &[], upload: true },
        AttributeDefinition { index: 10, access: AttributeAccess::ReadOnly, kind: AttributeKind::Scalar { length: 2 }, create: CreateSource::Absent, default: &[], upload: true },
        AttributeDefinition { index: 11, access: AttributeAccess::ReadWrite, kind: AttributeKind::Scalar { length: 1 }, create: CreateSource::Absent, default: &[], upload: true },
        AttributeDefinition { index: 12, access: AttributeAccess::ReadWrite, kind: AttributeKind::Scalar { length: 1 }, create: CreateSource::Absent, default: &[], upload: true },
        AttributeDefinition { index: 13, access: AttributeAccess::ReadOnly, kind: AttributeKind::Scalar { length: 2 }, create: CreateSource::Absent, default: &[], upload: true },
        AttributeDefinition { index: 14, access: AttributeAccess::ReadOnly, kind: AttributeKind::Scalar { length: 2 }, create: CreateSource::Absent, default: &[], upload: true },
        AttributeDefinition { index: 15, access: AttributeAccess::ReadWrite, kind: AttributeKind::Scalar { length: 1 }, create: CreateSource::Absent, default: &[], upload: true },
        AttributeDefinition { index: 16, access: AttributeAccess::ReadWrite, kind: AttributeKind::Scalar { length: 1 }, create: CreateSource::Absent, default: &[], upload: true },
    ];
    proof {
        assert(attributes@[0].default@ =~= Seq::<u8>::empty());
        assert(attributes@[1].default@ =~= Seq::<u8>::empty());
        assert(attributes@[2].default@ =~= Seq::<u8>::empty());
        assert(attributes@[3].default@ =~= Seq::<u8>::empty());
        assert(attributes@[4].default@ =~= Seq::<u8>::empty());
        assert(attributes@[5].default@ =~= Seq::<u8>::empty());
        assert(attributes@[6].default@ =~= Seq::<u8>::empty());
        assert(attributes@[7].default@ =~= Seq::<u8>::empty());
        assert(attributes@[8].default@ =~= Seq::<u8>::empty());
        assert(attributes@[9].default@ =~= Seq::<u8>::empty());
        assert(attributes@[10].default@ =~= Seq::<u8>::empty());
        assert(attributes@[11].default@ =~= Seq::<u8>::empty());
        assert(attributes@[12].default@ =~= Seq::<u8>::empty());
        assert(attributes@[13].default@ =~= Seq::<u8>::empty());
        assert(attributes@[14].default@ =~= Seq::<u8>::empty());
        assert(attributes@[15].default@ =~= Seq::<u8>::empty());
        assert(attribute_views(attributes@) =~= spec_ani_g_attributes());
    }
    attributes
}

pub open spec fn spec_uni_g_attributes() -> Seq<AttributeDefinitionView> {
    seq![
        spec_read_only(1, 2),
        spec_read_write(2, 1),
        spec_read_only(3, 1),
        spec_read_write(4, 2),
        spec_read_write(5, 2),
    ]
}

fn uni_g_attributes() -> (attributes: &'static [AttributeDefinition])
    ensures
        attribute_views(attributes@) == spec_uni_g_attributes(),
{
    let attributes: &'static [AttributeDefinition] = &[
        AttributeDefinition { index: 1, access: AttributeAccess::ReadOnly, kind: AttributeKind::Scalar { length: 2 }, create: CreateSource::Absent, default: &[], upload: true },
        AttributeDefinition { index: 2, access: AttributeAccess::ReadWrite, kind: AttributeKind::Scalar { length: 1 }, create: CreateSource::Absent, default: &[], upload: true },
        AttributeDefinition { index: 3, access: AttributeAccess::ReadOnly, kind: AttributeKind::Scalar { length: 1 }, create: CreateSource::Absent, default: &[], upload: true },
        AttributeDefinition { index: 4, access: AttributeAccess::ReadWrite, kind: AttributeKind::Scalar { length: 2 }, create: CreateSource::Absent, default: &[], upload: true },
        AttributeDefinition { index: 5, access: AttributeAccess::ReadWrite, kind: AttributeKind::Scalar { length: 2 }, create: CreateSource::Absent, default: &[], upload: true },
    ];
    proof {
        assert(attributes@[0].default@ =~= Seq::<u8>::empty());
        assert(attributes@[1].default@ =~= Seq::<u8>::empty());
        assert(attributes@[2].default@ =~= Seq::<u8>::empty());
        assert(attributes@[3].default@ =~= Seq::<u8>::empty());
        assert(attributes@[4].default@ =~= Seq::<u8>::empty());
        assert(attribute_views(attributes@) =~= spec_uni_g_attributes());
    }
    attributes
}

pub open spec fn spec_gem_interworking_attributes() -> Seq<AttributeDefinitionView> {
    seq![
        spec_required(spec_read_write(1, 2), 0),
        spec_required(spec_read_write(2, 1), 2),
        spec_required(spec_read_write(3, 2), 3),
        spec_required(spec_read_write(4, 2), 5),
        spec_read_only(5, 1),
        spec_read_only(6, 1),
        spec_required(spec_read_write(7, 2), 7),
        spec_read_write(8, 1),
    ]
}

fn gem_interworking_attributes() -> (attributes: &'static [AttributeDefinition])
    ensures
        attribute_views(attributes@) == spec_gem_interworking_attributes(),
{
    let attributes: &'static [AttributeDefinition] = &[
        AttributeDefinition { index: 1, access: AttributeAccess::ReadWrite, kind: AttributeKind::Scalar { length: 2 }, create: CreateSource::Required { offset: 0 }, default: &[], upload: true },
        AttributeDefinition { index: 2, access: AttributeAccess::ReadWrite, kind: AttributeKind::Scalar { length: 1 }, create: CreateSource::Required { offset: 2 }, default: &[], upload: true },
        AttributeDefinition { index: 3, access: AttributeAccess::ReadWrite, kind: AttributeKind::Scalar { length: 2 }, create: CreateSource::Required { offset: 3 }, default: &[], upload: true },
        AttributeDefinition { index: 4, access: AttributeAccess::ReadWrite, kind: AttributeKind::Scalar { length: 2 }, create: CreateSource::Required { offset: 5 }, default: &[], upload: true },
        AttributeDefinition { index: 5, access: AttributeAccess::ReadOnly, kind: AttributeKind::Scalar { length: 1 }, create: CreateSource::Absent, default: &[], upload: true },
        AttributeDefinition { index: 6, access: AttributeAccess::ReadOnly, kind: AttributeKind::Scalar { length: 1 }, create: CreateSource::Absent, default: &[], upload: true },
        AttributeDefinition { index: 7, access: AttributeAccess::ReadWrite, kind: AttributeKind::Scalar { length: 2 }, create: CreateSource::Required { offset: 7 }, default: &[], upload: true },
        AttributeDefinition { index: 8, access: AttributeAccess::ReadWrite, kind: AttributeKind::Scalar { length: 1 }, create: CreateSource::Absent, default: &[], upload: true },
    ];
    proof {
        assert(attributes@[0].default@ =~= Seq::<u8>::empty());
        assert(attributes@[1].default@ =~= Seq::<u8>::empty());
        assert(attributes@[2].default@ =~= Seq::<u8>::empty());
        assert(attributes@[3].default@ =~= Seq::<u8>::empty());
        assert(attributes@[4].default@ =~= Seq::<u8>::empty());
        assert(attributes@[5].default@ =~= Seq::<u8>::empty());
        assert(attributes@[6].default@ =~= Seq::<u8>::empty());
        assert(attributes@[7].default@ =~= Seq::<u8>::empty());
        assert(attribute_views(attributes@) =~= spec_gem_interworking_attributes());
    }
    attributes
}

pub open spec fn spec_gem_port_pm_attributes() -> Seq<AttributeDefinitionView> {
    seq![
        spec_read_only(1, 1),
        spec_required(spec_read_write(2, 2), 0),
        spec_runtime_only(spec_read_only(3, 4)),
        spec_runtime_only(spec_read_only(4, 4)),
        spec_runtime_only(spec_read_only(5, 8)),
        spec_runtime_only(spec_read_only(6, 8)),
        spec_runtime_only(spec_read_only(7, 8)),
        spec_runtime_only(spec_read_only(8, 4)),
        spec_runtime_only(spec_read_only(9, 8)),
    ]
}

fn gem_port_pm_attributes() -> (attributes: &'static [AttributeDefinition])
    ensures
        attribute_views(attributes@) == spec_gem_port_pm_attributes(),
{
    let attributes: &'static [AttributeDefinition] = &[
        AttributeDefinition { index: 1, access: AttributeAccess::ReadOnly, kind: AttributeKind::Scalar { length: 1 }, create: CreateSource::Absent, default: &[], upload: true },
        AttributeDefinition { index: 2, access: AttributeAccess::ReadWrite, kind: AttributeKind::Scalar { length: 2 }, create: CreateSource::Required { offset: 0 }, default: &[], upload: true },
        AttributeDefinition { index: 3, access: AttributeAccess::ReadOnly, kind: AttributeKind::Scalar { length: 4 }, create: CreateSource::Absent, default: &[], upload: false },
        AttributeDefinition { index: 4, access: AttributeAccess::ReadOnly, kind: AttributeKind::Scalar { length: 4 }, create: CreateSource::Absent, default: &[], upload: false },
        AttributeDefinition { index: 5, access: AttributeAccess::ReadOnly, kind: AttributeKind::Scalar { length: 8 }, create: CreateSource::Absent, default: &[], upload: false },
        AttributeDefinition { index: 6, access: AttributeAccess::ReadOnly, kind: AttributeKind::Scalar { length: 8 }, create: CreateSource::Absent, default: &[], upload: false },
        AttributeDefinition { index: 7, access: AttributeAccess::ReadOnly, kind: AttributeKind::Scalar { length: 8 }, create: CreateSource::Absent, default: &[], upload: false },
        AttributeDefinition { index: 8, access: AttributeAccess::ReadOnly, kind: AttributeKind::Scalar { length: 4 }, create: CreateSource::Absent, default: &[], upload: false },
        AttributeDefinition { index: 9, access: AttributeAccess::ReadOnly, kind: AttributeKind::Scalar { length: 8 }, create: CreateSource::Absent, default: &[], upload: false },
    ];
    proof {
        assert(attributes@[0].default@ =~= Seq::<u8>::empty());
        assert(attributes@[1].default@ =~= Seq::<u8>::empty());
        assert(attributes@[2].default@ =~= Seq::<u8>::empty());
        assert(attributes@[3].default@ =~= Seq::<u8>::empty());
        assert(attributes@[4].default@ =~= Seq::<u8>::empty());
        assert(attributes@[5].default@ =~= Seq::<u8>::empty());
        assert(attributes@[6].default@ =~= Seq::<u8>::empty());
        assert(attributes@[7].default@ =~= Seq::<u8>::empty());
        assert(attributes@[8].default@ =~= Seq::<u8>::empty());
        assert(attribute_views(attributes@) =~= spec_gem_port_pm_attributes());
    }
    attributes
}

pub open spec fn spec_gem_port_attributes() -> Seq<AttributeDefinitionView> {
    seq![
        spec_required(spec_read_write(1, 2), 0),
        spec_required(spec_read_write(2, 2), 2),
        spec_required(spec_read_write(3, 1), 4),
        spec_required(spec_read_write(4, 2), 5),
        spec_required(spec_read_write(5, 2), 7),
        spec_read_only(6, 1),
        spec_required(spec_read_write(7, 2), 9),
        spec_read_only(8, 1),
        spec_required(spec_read_write(9, 2), 11),
        spec_read_write(10, 1),
    ]
}

fn gem_port_attributes() -> (attributes: &'static [AttributeDefinition])
    ensures
        attribute_views(attributes@) == spec_gem_port_attributes(),
{
    let attributes: &'static [AttributeDefinition] = &[
        AttributeDefinition { index: 1, access: AttributeAccess::ReadWrite, kind: AttributeKind::Scalar { length: 2 }, create: CreateSource::Required { offset: 0 }, default: &[], upload: true },
        AttributeDefinition { index: 2, access: AttributeAccess::ReadWrite, kind: AttributeKind::Scalar { length: 2 }, create: CreateSource::Required { offset: 2 }, default: &[], upload: true },
        AttributeDefinition { index: 3, access: AttributeAccess::ReadWrite, kind: AttributeKind::Scalar { length: 1 }, create: CreateSource::Required { offset: 4 }, default: &[], upload: true },
        AttributeDefinition { index: 4, access: AttributeAccess::ReadWrite, kind: AttributeKind::Scalar { length: 2 }, create: CreateSource::Required { offset: 5 }, default: &[], upload: true },
        AttributeDefinition { index: 5, access: AttributeAccess::ReadWrite, kind: AttributeKind::Scalar { length: 2 }, create: CreateSource::Required { offset: 7 }, default: &[], upload: true },
        AttributeDefinition { index: 6, access: AttributeAccess::ReadOnly, kind: AttributeKind::Scalar { length: 1 }, create: CreateSource::Absent, default: &[], upload: true },
        AttributeDefinition { index: 7, access: AttributeAccess::ReadWrite, kind: AttributeKind::Scalar { length: 2 }, create: CreateSource::Required { offset: 9 }, default: &[], upload: true },
        AttributeDefinition { index: 8, access: AttributeAccess::ReadOnly, kind: AttributeKind::Scalar { length: 1 }, create: CreateSource::Absent, default: &[], upload: true },
        AttributeDefinition { index: 9, access: AttributeAccess::ReadWrite, kind: AttributeKind::Scalar { length: 2 }, create: CreateSource::Required { offset: 11 }, default: &[], upload: true },
        AttributeDefinition { index: 10, access: AttributeAccess::ReadWrite, kind: AttributeKind::Scalar { length: 1 }, create: CreateSource::Absent, default: &[], upload: true },
    ];
    proof {
        assert(attributes@[0].default@ =~= Seq::<u8>::empty());
        assert(attributes@[1].default@ =~= Seq::<u8>::empty());
        assert(attributes@[2].default@ =~= Seq::<u8>::empty());
        assert(attributes@[3].default@ =~= Seq::<u8>::empty());
        assert(attributes@[4].default@ =~= Seq::<u8>::empty());
        assert(attributes@[5].default@ =~= Seq::<u8>::empty());
        assert(attributes@[6].default@ =~= Seq::<u8>::empty());
        assert(attributes@[7].default@ =~= Seq::<u8>::empty());
        assert(attributes@[8].default@ =~= Seq::<u8>::empty());
        assert(attributes@[9].default@ =~= Seq::<u8>::empty());
        assert(attribute_views(attributes@) =~= spec_gem_port_attributes());
    }
    attributes
}

pub open spec fn spec_gal_profile_attributes() -> Seq<AttributeDefinitionView> {
    seq![
        spec_required(spec_read_write(1, 2), 0),
    ]
}

fn gal_profile_attributes() -> (attributes: &'static [AttributeDefinition])
    ensures
        attribute_views(attributes@) == spec_gal_profile_attributes(),
{
    let attributes: &'static [AttributeDefinition] = &[
        AttributeDefinition { index: 1, access: AttributeAccess::ReadWrite, kind: AttributeKind::Scalar { length: 2 }, create: CreateSource::Required { offset: 0 }, default: &[], upload: true },
    ];
    proof {
        assert(attributes@[0].default@ =~= Seq::<u8>::empty());
        assert(attribute_views(attributes@) =~= spec_gal_profile_attributes());
    }
    attributes
}

pub open spec fn spec_threshold_attributes() -> Seq<AttributeDefinitionView> {
    seq![
        spec_required(spec_read_write(1, 4), 0),
        spec_required(spec_read_write(2, 4), 4),
        spec_required(spec_read_write(3, 4), 8),
        spec_required(spec_read_write(4, 4), 12),
        spec_required(spec_read_write(5, 4), 16),
        spec_required(spec_read_write(6, 4), 20),
        spec_required(spec_read_write(7, 4), 24),
    ]
}

fn threshold_attributes() -> (attributes: &'static [AttributeDefinition])
    ensures
        attribute_views(attributes@) == spec_threshold_attributes(),
{
    let attributes: &'static [AttributeDefinition] = &[
        AttributeDefinition { index: 1, access: AttributeAccess::ReadWrite, kind: AttributeKind::Scalar { length: 4 }, create: CreateSource::Required { offset: 0 }, default: &[], upload: true },
        AttributeDefinition { index: 2, access: AttributeAccess::ReadWrite, kind: AttributeKind::Scalar { length: 4 }, create: CreateSource::Required { offset: 4 }, default: &[], upload: true },
        AttributeDefinition { index: 3, access: AttributeAccess::ReadWrite, kind: AttributeKind::Scalar { length: 4 }, create: CreateSource::Required { offset: 8 }, default: &[], upload: true },
        AttributeDefinition { index: 4, access: AttributeAccess::ReadWrite, kind: AttributeKind::Scalar { length: 4 }, create: CreateSource::Required { offset: 12 }, default: &[], upload: true },
        AttributeDefinition { index: 5, access: AttributeAccess::ReadWrite, kind: AttributeKind::Scalar { length: 4 }, create: CreateSource::Required { offset: 16 }, default: &[], upload: true },
        AttributeDefinition { index: 6, access: AttributeAccess::ReadWrite, kind: AttributeKind::Scalar { length: 4 }, create: CreateSource::Required { offset: 20 }, default: &[], upload: true },
        AttributeDefinition { index: 7, access: AttributeAccess::ReadWrite, kind: AttributeKind::Scalar { length: 4 }, create: CreateSource::Required { offset: 24 }, default: &[], upload: true },
    ];
    proof {
        assert(attributes@[0].default@ =~= Seq::<u8>::empty());
        assert(attributes@[1].default@ =~= Seq::<u8>::empty());
        assert(attributes@[2].default@ =~= Seq::<u8>::empty());
        assert(attributes@[3].default@ =~= Seq::<u8>::empty());
        assert(attributes@[4].default@ =~= Seq::<u8>::empty());
        assert(attributes@[5].default@ =~= Seq::<u8>::empty());
        assert(attributes@[6].default@ =~= Seq::<u8>::empty());
        assert(attribute_views(attributes@) =~= spec_threshold_attributes());
    }
    attributes
}

pub open spec fn spec_priority_queue_attributes() -> Seq<AttributeDefinitionView> {
    seq![
        spec_read_only(1, 1),
        spec_with_default(spec_read_only(2, 2), seq![255u8, 255u8]),
        spec_with_default(spec_read_write(3, 2), seq![0u8, 4u8]),
        spec_read_write(6, 4),
        spec_read_write(7, 2),
        spec_with_default(spec_read_write(8, 1), seq![1u8]),
        spec_read_write(9, 2),
        spec_read_write(10, 4),
        spec_with_default(spec_read_write(11, 2), seq![255u8, 255u8]),
        spec_read_write(12, 2),
    ]
}

fn priority_queue_attributes() -> (attributes: &'static [AttributeDefinition])
    ensures
        attribute_views(attributes@) == spec_priority_queue_attributes(),
{
    let attributes: &'static [AttributeDefinition] = &[
        AttributeDefinition { index: 1, access: AttributeAccess::ReadOnly, kind: AttributeKind::Scalar { length: 1 }, create: CreateSource::Absent, default: &[], upload: true },
        AttributeDefinition { index: 2, access: AttributeAccess::ReadOnly, kind: AttributeKind::Scalar { length: 2 }, create: CreateSource::Absent, default: &[0xff, 0xff], upload: true },
        AttributeDefinition { index: 3, access: AttributeAccess::ReadWrite, kind: AttributeKind::Scalar { length: 2 }, create: CreateSource::Absent, default: &[0x0, 0x4], upload: true },
        AttributeDefinition { index: 6, access: AttributeAccess::ReadWrite, kind: AttributeKind::Scalar { length: 4 }, create: CreateSource::Absent, default: &[], upload: true },
        AttributeDefinition { index: 7, access: AttributeAccess::ReadWrite, kind: AttributeKind::Scalar { length: 2 }, create: CreateSource::Absent, default: &[], upload: true },
        AttributeDefinition { index: 8, access: AttributeAccess::ReadWrite, kind: AttributeKind::Scalar { length: 1 }, create: CreateSource::Absent, default: &[0x1], upload: true },
        AttributeDefinition { index: 9, access: AttributeAccess::ReadWrite, kind: AttributeKind::Scalar { length: 2 }, create: CreateSource::Absent, default: &[], upload: true },
        AttributeDefinition { index: 10, access: AttributeAccess::ReadWrite, kind: AttributeKind::Scalar { length: 4 }, create: CreateSource::Absent, default: &[], upload: true },
        AttributeDefinition { index: 11, access: AttributeAccess::ReadWrite, kind: AttributeKind::Scalar { length: 2 }, create: CreateSource::Absent, default: &[0xff, 0xff], upload: true },
        AttributeDefinition { index: 12, access: AttributeAccess::ReadWrite, kind: AttributeKind::Scalar { length: 2 }, create: CreateSource::Absent, default: &[], upload: true },
    ];
    proof {
        assert(attributes@[0].default@ =~= Seq::<u8>::empty());
        assert(attributes@[1].default@ =~= seq![255u8, 255u8]);
        assert(attributes@[2].default@ =~= seq![0u8, 4u8]);
        assert(attributes@[3].default@ =~= Seq::<u8>::empty());
        assert(attributes@[4].default@ =~= Seq::<u8>::empty());
        assert(attributes@[5].default@ =~= seq![1u8]);
        assert(attributes@[6].default@ =~= Seq::<u8>::empty());
        assert(attributes@[7].default@ =~= Seq::<u8>::empty());
        assert(attributes@[8].default@ =~= seq![255u8, 255u8]);
        assert(attributes@[9].default@ =~= Seq::<u8>::empty());
        assert(attribute_views(attributes@) =~= spec_priority_queue_attributes());
    }
    attributes
}

pub open spec fn spec_traffic_scheduler_attributes() -> Seq<AttributeDefinitionView> {
    seq![
        spec_read_write(1, 2),
        spec_read_only(2, 2),
        spec_with_default(spec_read_write(3, 1), seq![1u8]),
        spec_read_write(4, 1),
    ]
}

fn traffic_scheduler_attributes() -> (attributes: &'static [AttributeDefinition])
    ensures
        attribute_views(attributes@) == spec_traffic_scheduler_attributes(),
{
    let attributes: &'static [AttributeDefinition] = &[
        AttributeDefinition { index: 1, access: AttributeAccess::ReadWrite, kind: AttributeKind::Scalar { length: 2 }, create: CreateSource::Absent, default: &[], upload: true },
        AttributeDefinition { index: 2, access: AttributeAccess::ReadOnly, kind: AttributeKind::Scalar { length: 2 }, create: CreateSource::Absent, default: &[], upload: true },
        AttributeDefinition { index: 3, access: AttributeAccess::ReadWrite, kind: AttributeKind::Scalar { length: 1 }, create: CreateSource::Absent, default: &[0x1], upload: true },
        AttributeDefinition { index: 4, access: AttributeAccess::ReadWrite, kind: AttributeKind::Scalar { length: 1 }, create: CreateSource::Absent, default: &[], upload: true },
    ];
    proof {
        assert(attributes@[0].default@ =~= Seq::<u8>::empty());
        assert(attributes@[1].default@ =~= Seq::<u8>::empty());
        assert(attributes@[2].default@ =~= seq![1u8]);
        assert(attributes@[3].default@ =~= Seq::<u8>::empty());
        assert(attribute_views(attributes@) =~= spec_traffic_scheduler_attributes());
    }
    attributes
}

pub open spec fn spec_traffic_descriptor_attributes() -> Seq<AttributeDefinitionView> {
    seq![
        spec_required(spec_read_write(1, 4), 0),
        spec_required(spec_read_write(2, 4), 4),
        spec_required(spec_read_write(3, 4), 8),
        spec_required(spec_read_write(4, 4), 12),
        spec_required(spec_read_write(5, 1), 16),
        spec_required(spec_read_write(6, 1), 17),
        spec_required(spec_read_write(7, 1), 18),
        spec_required(spec_read_only(8, 1), 19),
    ]
}

fn traffic_descriptor_attributes() -> (attributes: &'static [AttributeDefinition])
    ensures
        attribute_views(attributes@) == spec_traffic_descriptor_attributes(),
{
    let attributes: &'static [AttributeDefinition] = &[
        AttributeDefinition { index: 1, access: AttributeAccess::ReadWrite, kind: AttributeKind::Scalar { length: 4 }, create: CreateSource::Required { offset: 0 }, default: &[], upload: true },
        AttributeDefinition { index: 2, access: AttributeAccess::ReadWrite, kind: AttributeKind::Scalar { length: 4 }, create: CreateSource::Required { offset: 4 }, default: &[], upload: true },
        AttributeDefinition { index: 3, access: AttributeAccess::ReadWrite, kind: AttributeKind::Scalar { length: 4 }, create: CreateSource::Required { offset: 8 }, default: &[], upload: true },
        AttributeDefinition { index: 4, access: AttributeAccess::ReadWrite, kind: AttributeKind::Scalar { length: 4 }, create: CreateSource::Required { offset: 12 }, default: &[], upload: true },
        AttributeDefinition { index: 5, access: AttributeAccess::ReadWrite, kind: AttributeKind::Scalar { length: 1 }, create: CreateSource::Required { offset: 16 }, default: &[], upload: true },
        AttributeDefinition { index: 6, access: AttributeAccess::ReadWrite, kind: AttributeKind::Scalar { length: 1 }, create: CreateSource::Required { offset: 17 }, default: &[], upload: true },
        AttributeDefinition { index: 7, access: AttributeAccess::ReadWrite, kind: AttributeKind::Scalar { length: 1 }, create: CreateSource::Required { offset: 18 }, default: &[], upload: true },
        AttributeDefinition { index: 8, access: AttributeAccess::ReadOnly, kind: AttributeKind::Scalar { length: 1 }, create: CreateSource::Required { offset: 19 }, default: &[], upload: true },
    ];
    proof {
        assert(attributes@[0].default@ =~= Seq::<u8>::empty());
        assert(attributes@[1].default@ =~= Seq::<u8>::empty());
        assert(attributes@[2].default@ =~= Seq::<u8>::empty());
        assert(attributes@[3].default@ =~= Seq::<u8>::empty());
        assert(attributes@[4].default@ =~= Seq::<u8>::empty());
        assert(attributes@[5].default@ =~= Seq::<u8>::empty());
        assert(attributes@[6].default@ =~= Seq::<u8>::empty());
        assert(attributes@[7].default@ =~= Seq::<u8>::empty());
        assert(attribute_views(attributes@) =~= spec_traffic_descriptor_attributes());
    }
    attributes
}

pub open spec fn spec_multicast_gem_attributes() -> Seq<AttributeDefinitionView> {
    seq![
        spec_required(spec_read_write(1, 2), 0),
        spec_required(spec_read_write(2, 1), 2),
        spec_required(spec_read_write(3, 2), 3),
        spec_required(spec_read_write(4, 2), 5),
        spec_read_only(5, 1),
        spec_read_only(6, 1),
        spec_required(spec_read_write(7, 2), 7),
        spec_required(spec_read_write(8, 1), 9),
        spec_read_write_table(9, 12),
    ]
}

fn multicast_gem_attributes() -> (attributes: &'static [AttributeDefinition])
    ensures
        attribute_views(attributes@) == spec_multicast_gem_attributes(),
{
    let attributes: &'static [AttributeDefinition] = &[
        AttributeDefinition { index: 1, access: AttributeAccess::ReadWrite, kind: AttributeKind::Scalar { length: 2 }, create: CreateSource::Required { offset: 0 }, default: &[], upload: true },
        AttributeDefinition { index: 2, access: AttributeAccess::ReadWrite, kind: AttributeKind::Scalar { length: 1 }, create: CreateSource::Required { offset: 2 }, default: &[], upload: true },
        AttributeDefinition { index: 3, access: AttributeAccess::ReadWrite, kind: AttributeKind::Scalar { length: 2 }, create: CreateSource::Required { offset: 3 }, default: &[], upload: true },
        AttributeDefinition { index: 4, access: AttributeAccess::ReadWrite, kind: AttributeKind::Scalar { length: 2 }, create: CreateSource::Required { offset: 5 }, default: &[], upload: true },
        AttributeDefinition { index: 5, access: AttributeAccess::ReadOnly, kind: AttributeKind::Scalar { length: 1 }, create: CreateSource::Absent, default: &[], upload: true },
        AttributeDefinition { index: 6, access: AttributeAccess::ReadOnly, kind: AttributeKind::Scalar { length: 1 }, create: CreateSource::Absent, default: &[], upload: true },
        AttributeDefinition { index: 7, access: AttributeAccess::ReadWrite, kind: AttributeKind::Scalar { length: 2 }, create: CreateSource::Required { offset: 7 }, default: &[], upload: true },
        AttributeDefinition { index: 8, access: AttributeAccess::ReadWrite, kind: AttributeKind::Scalar { length: 1 }, create: CreateSource::Required { offset: 9 }, default: &[], upload: true },
        AttributeDefinition { index: 9, access: AttributeAccess::ReadWrite, kind: AttributeKind::Table { row_length: 12 }, create: CreateSource::Absent, default: &[], upload: false },
    ];
    proof {
        assert(attributes@[0].default@ =~= Seq::<u8>::empty());
        assert(attributes@[1].default@ =~= Seq::<u8>::empty());
        assert(attributes@[2].default@ =~= Seq::<u8>::empty());
        assert(attributes@[3].default@ =~= Seq::<u8>::empty());
        assert(attributes@[4].default@ =~= Seq::<u8>::empty());
        assert(attributes@[5].default@ =~= Seq::<u8>::empty());
        assert(attributes@[6].default@ =~= Seq::<u8>::empty());
        assert(attributes@[7].default@ =~= Seq::<u8>::empty());
        assert(attributes@[8].default@ =~= Seq::<u8>::empty());
        assert(attribute_views(attributes@) =~= spec_multicast_gem_attributes());
    }
    attributes
}

pub open spec fn spec_omci_attributes() -> Seq<AttributeDefinitionView> {
    seq![
        spec_read_only_table(1, 2),
        spec_read_only_table(2, 1),
    ]
}

fn omci_attributes() -> (attributes: &'static [AttributeDefinition])
    ensures
        attribute_views(attributes@) == spec_omci_attributes(),
{
    let attributes: &'static [AttributeDefinition] = &[
        AttributeDefinition { index: 1, access: AttributeAccess::ReadOnly, kind: AttributeKind::Table { row_length: 2 }, create: CreateSource::Absent, default: &[], upload: false },
        AttributeDefinition { index: 2, access: AttributeAccess::ReadOnly, kind: AttributeKind::Table { row_length: 1 }, create: CreateSource::Absent, default: &[], upload: false },
    ];
    proof {
        assert(attributes@[0].default@ =~= Seq::<u8>::empty());
        assert(attributes@[1].default@ =~= Seq::<u8>::empty());
        assert(attribute_views(attributes@) =~= spec_omci_attributes());
    }
    attributes
}

pub open spec fn spec_multicast_operations_attributes() -> Seq<AttributeDefinitionView> {
    seq![
        spec_required(spec_read_write(1, 1), 0),
        spec_required(spec_read_write(2, 1), 1),
        spec_required(spec_read_write(3, 1), 2),
        spec_required(spec_read_write(4, 2), 3),
        spec_required(spec_read_write(5, 1), 5),
        spec_required(spec_read_write(6, 4), 6),
        spec_read_write_table(7, 24),
        spec_read_write_table(8, 24),
        spec_read_only_table(9, 1),
        spec_required(spec_read_write(10, 1), 10),
        spec_required(spec_read_write(11, 4), 11),
        spec_required(spec_read_write(12, 4), 15),
        spec_required(spec_read_write(13, 4), 19),
        spec_read_write(14, 4),
        spec_read_write(15, 1),
        spec_required(spec_read_write(16, 3), 23),
    ]
}

fn multicast_operations_attributes() -> (attributes: &'static [AttributeDefinition])
    ensures
        attribute_views(attributes@) == spec_multicast_operations_attributes(),
{
    let attributes: &'static [AttributeDefinition] = &[
        AttributeDefinition { index: 1, access: AttributeAccess::ReadWrite, kind: AttributeKind::Scalar { length: 1 }, create: CreateSource::Required { offset: 0 }, default: &[], upload: true },
        AttributeDefinition { index: 2, access: AttributeAccess::ReadWrite, kind: AttributeKind::Scalar { length: 1 }, create: CreateSource::Required { offset: 1 }, default: &[], upload: true },
        AttributeDefinition { index: 3, access: AttributeAccess::ReadWrite, kind: AttributeKind::Scalar { length: 1 }, create: CreateSource::Required { offset: 2 }, default: &[], upload: true },
        AttributeDefinition { index: 4, access: AttributeAccess::ReadWrite, kind: AttributeKind::Scalar { length: 2 }, create: CreateSource::Required { offset: 3 }, default: &[], upload: true },
        AttributeDefinition { index: 5, access: AttributeAccess::ReadWrite, kind: AttributeKind::Scalar { length: 1 }, create: CreateSource::Required { offset: 5 }, default: &[], upload: true },
        AttributeDefinition { index: 6, access: AttributeAccess::ReadWrite, kind: AttributeKind::Scalar { length: 4 }, create: CreateSource::Required { offset: 6 }, default: &[], upload: true },
        AttributeDefinition { index: 7, access: AttributeAccess::ReadWrite, kind: AttributeKind::Table { row_length: 24 }, create: CreateSource::Absent, default: &[], upload: false },
        AttributeDefinition { index: 8, access: AttributeAccess::ReadWrite, kind: AttributeKind::Table { row_length: 24 }, create: CreateSource::Absent, default: &[], upload: false },
        AttributeDefinition { index: 9, access: AttributeAccess::ReadOnly, kind: AttributeKind::Table { row_length: 1 }, create: CreateSource::Absent, default: &[], upload: false },
        AttributeDefinition { index: 10, access: AttributeAccess::ReadWrite, kind: AttributeKind::Scalar { length: 1 }, create: CreateSource::Required { offset: 10 }, default: &[], upload: true },
        AttributeDefinition { index: 11, access: AttributeAccess::ReadWrite, kind: AttributeKind::Scalar { length: 4 }, create: CreateSource::Required { offset: 11 }, default: &[], upload: true },
        AttributeDefinition { index: 12, access: AttributeAccess::ReadWrite, kind: AttributeKind::Scalar { length: 4 }, create: CreateSource::Required { offset: 15 }, default: &[], upload: true },
        AttributeDefinition { index: 13, access: AttributeAccess::ReadWrite, kind: AttributeKind::Scalar { length: 4 }, create: CreateSource::Required { offset: 19 }, default: &[], upload: true },
        AttributeDefinition { index: 14, access: AttributeAccess::ReadWrite, kind: AttributeKind::Scalar { length: 4 }, create: CreateSource::Absent, default: &[], upload: true },
        AttributeDefinition { index: 15, access: AttributeAccess::ReadWrite, kind: AttributeKind::Scalar { length: 1 }, create: CreateSource::Absent, default: &[], upload: true },
        AttributeDefinition { index: 16, access: AttributeAccess::ReadWrite, kind: AttributeKind::Scalar { length: 3 }, create: CreateSource::Required { offset: 23 }, default: &[], upload: true },
    ];
    proof {
        assert(attributes@[0].default@ =~= Seq::<u8>::empty());
        assert(attributes@[1].default@ =~= Seq::<u8>::empty());
        assert(attributes@[2].default@ =~= Seq::<u8>::empty());
        assert(attributes@[3].default@ =~= Seq::<u8>::empty());
        assert(attributes@[4].default@ =~= Seq::<u8>::empty());
        assert(attributes@[5].default@ =~= Seq::<u8>::empty());
        assert(attributes@[6].default@ =~= Seq::<u8>::empty());
        assert(attributes@[7].default@ =~= Seq::<u8>::empty());
        assert(attributes@[8].default@ =~= Seq::<u8>::empty());
        assert(attributes@[9].default@ =~= Seq::<u8>::empty());
        assert(attributes@[10].default@ =~= Seq::<u8>::empty());
        assert(attributes@[11].default@ =~= Seq::<u8>::empty());
        assert(attributes@[12].default@ =~= Seq::<u8>::empty());
        assert(attributes@[13].default@ =~= Seq::<u8>::empty());
        assert(attributes@[14].default@ =~= Seq::<u8>::empty());
        assert(attributes@[15].default@ =~= Seq::<u8>::empty());
        assert(attribute_views(attributes@) =~= spec_multicast_operations_attributes());
    }
    attributes
}

pub open spec fn spec_multicast_subscriber_attributes() -> Seq<AttributeDefinitionView> {
    seq![
        spec_required(spec_read_write(1, 1), 0),
        spec_required(spec_read_write(2, 2), 1),
        spec_required(spec_read_write(3, 2), 3),
        spec_required(spec_read_write(4, 4), 5),
        spec_required(spec_read_write(5, 1), 9),
    ]
}

fn multicast_subscriber_attributes() -> (attributes: &'static [AttributeDefinition])
    ensures
        attribute_views(attributes@) == spec_multicast_subscriber_attributes(),
{
    let attributes: &'static [AttributeDefinition] = &[
        AttributeDefinition { index: 1, access: AttributeAccess::ReadWrite, kind: AttributeKind::Scalar { length: 1 }, create: CreateSource::Required { offset: 0 }, default: &[], upload: true },
        AttributeDefinition { index: 2, access: AttributeAccess::ReadWrite, kind: AttributeKind::Scalar { length: 2 }, create: CreateSource::Required { offset: 1 }, default: &[], upload: true },
        AttributeDefinition { index: 3, access: AttributeAccess::ReadWrite, kind: AttributeKind::Scalar { length: 2 }, create: CreateSource::Required { offset: 3 }, default: &[], upload: true },
        AttributeDefinition { index: 4, access: AttributeAccess::ReadWrite, kind: AttributeKind::Scalar { length: 4 }, create: CreateSource::Required { offset: 5 }, default: &[], upload: true },
        AttributeDefinition { index: 5, access: AttributeAccess::ReadWrite, kind: AttributeKind::Scalar { length: 1 }, create: CreateSource::Required { offset: 9 }, default: &[], upload: true },
    ];
    proof {
        assert(attributes@[0].default@ =~= Seq::<u8>::empty());
        assert(attributes@[1].default@ =~= Seq::<u8>::empty());
        assert(attributes@[2].default@ =~= Seq::<u8>::empty());
        assert(attributes@[3].default@ =~= Seq::<u8>::empty());
        assert(attributes@[4].default@ =~= Seq::<u8>::empty());
        assert(attribute_views(attributes@) =~= spec_multicast_subscriber_attributes());
    }
    attributes
}

pub open spec fn spec_multicast_monitor_attributes() -> Seq<AttributeDefinitionView> {
    seq![
        spec_required(spec_read_write(1, 1), 0),
        spec_read_only(2, 4),
        spec_read_only(3, 4),
        spec_read_only(4, 4),
        spec_read_only_table(5, 1),
        spec_read_only_table(6, 1),
    ]
}

fn multicast_monitor_attributes() -> (attributes: &'static [AttributeDefinition])
    ensures
        attribute_views(attributes@) == spec_multicast_monitor_attributes(),
{
    let attributes: &'static [AttributeDefinition] = &[
        AttributeDefinition { index: 1, access: AttributeAccess::ReadWrite, kind: AttributeKind::Scalar { length: 1 }, create: CreateSource::Required { offset: 0 }, default: &[], upload: true },
        AttributeDefinition { index: 2, access: AttributeAccess::ReadOnly, kind: AttributeKind::Scalar { length: 4 }, create: CreateSource::Absent, default: &[], upload: true },
        AttributeDefinition { index: 3, access: AttributeAccess::ReadOnly, kind: AttributeKind::Scalar { length: 4 }, create: CreateSource::Absent, default: &[], upload: true },
        AttributeDefinition { index: 4, access: AttributeAccess::ReadOnly, kind: AttributeKind::Scalar { length: 4 }, create: CreateSource::Absent, default: &[], upload: true },
        AttributeDefinition { index: 5, access: AttributeAccess::ReadOnly, kind: AttributeKind::Table { row_length: 1 }, create: CreateSource::Absent, default: &[], upload: false },
        AttributeDefinition { index: 6, access: AttributeAccess::ReadOnly, kind: AttributeKind::Table { row_length: 1 }, create: CreateSource::Absent, default: &[], upload: false },
    ];
    proof {
        assert(attributes@[0].default@ =~= Seq::<u8>::empty());
        assert(attributes@[1].default@ =~= Seq::<u8>::empty());
        assert(attributes@[2].default@ =~= Seq::<u8>::empty());
        assert(attributes@[3].default@ =~= Seq::<u8>::empty());
        assert(attributes@[4].default@ =~= Seq::<u8>::empty());
        assert(attributes@[5].default@ =~= Seq::<u8>::empty());
        assert(attribute_views(attributes@) =~= spec_multicast_monitor_attributes());
    }
    attributes
}

pub open spec fn spec_fec_pm_attributes() -> Seq<AttributeDefinitionView> {
    seq![
        spec_read_only(1, 1),
        spec_required(spec_read_write(2, 2), 0),
        spec_runtime_only(spec_read_only(3, 4)),
        spec_runtime_only(spec_read_only(4, 4)),
        spec_runtime_only(spec_read_only(5, 4)),
        spec_runtime_only(spec_read_only(6, 4)),
        spec_runtime_only(spec_read_only(7, 2)),
    ]
}

fn fec_pm_attributes() -> (attributes: &'static [AttributeDefinition])
    ensures
        attribute_views(attributes@) == spec_fec_pm_attributes(),
{
    let attributes: &'static [AttributeDefinition] = &[
        AttributeDefinition { index: 1, access: AttributeAccess::ReadOnly, kind: AttributeKind::Scalar { length: 1 }, create: CreateSource::Absent, default: &[], upload: true },
        AttributeDefinition { index: 2, access: AttributeAccess::ReadWrite, kind: AttributeKind::Scalar { length: 2 }, create: CreateSource::Required { offset: 0 }, default: &[], upload: true },
        AttributeDefinition { index: 3, access: AttributeAccess::ReadOnly, kind: AttributeKind::Scalar { length: 4 }, create: CreateSource::Absent, default: &[], upload: false },
        AttributeDefinition { index: 4, access: AttributeAccess::ReadOnly, kind: AttributeKind::Scalar { length: 4 }, create: CreateSource::Absent, default: &[], upload: false },
        AttributeDefinition { index: 5, access: AttributeAccess::ReadOnly, kind: AttributeKind::Scalar { length: 4 }, create: CreateSource::Absent, default: &[], upload: false },
        AttributeDefinition { index: 6, access: AttributeAccess::ReadOnly, kind: AttributeKind::Scalar { length: 4 }, create: CreateSource::Absent, default: &[], upload: false },
        AttributeDefinition { index: 7, access: AttributeAccess::ReadOnly, kind: AttributeKind::Scalar { length: 2 }, create: CreateSource::Absent, default: &[], upload: false },
    ];
    proof {
        assert(attributes@[0].default@ =~= Seq::<u8>::empty());
        assert(attributes@[1].default@ =~= Seq::<u8>::empty());
        assert(attributes@[2].default@ =~= Seq::<u8>::empty());
        assert(attributes@[3].default@ =~= Seq::<u8>::empty());
        assert(attributes@[4].default@ =~= Seq::<u8>::empty());
        assert(attributes@[5].default@ =~= Seq::<u8>::empty());
        assert(attributes@[6].default@ =~= Seq::<u8>::empty());
        assert(attribute_views(attributes@) =~= spec_fec_pm_attributes());
    }
    attributes
}

pub open spec fn spec_veip_attributes() -> Seq<AttributeDefinitionView> {
    seq![
        spec_read_write(1, 1),
        spec_read_only(2, 1),
        spec_read_write(3, 25),
        spec_with_default(spec_read_write(4, 2), seq![255u8, 255u8]),
        spec_read_only(5, 2),
    ]
}

fn veip_attributes() -> (attributes: &'static [AttributeDefinition])
    ensures
        attribute_views(attributes@) == spec_veip_attributes(),
{
    let attributes: &'static [AttributeDefinition] = &[
        AttributeDefinition { index: 1, access: AttributeAccess::ReadWrite, kind: AttributeKind::Scalar { length: 1 }, create: CreateSource::Absent, default: &[], upload: true },
        AttributeDefinition { index: 2, access: AttributeAccess::ReadOnly, kind: AttributeKind::Scalar { length: 1 }, create: CreateSource::Absent, default: &[], upload: true },
        AttributeDefinition { index: 3, access: AttributeAccess::ReadWrite, kind: AttributeKind::Scalar { length: 25 }, create: CreateSource::Absent, default: &[], upload: true },
        AttributeDefinition { index: 4, access: AttributeAccess::ReadWrite, kind: AttributeKind::Scalar { length: 2 }, create: CreateSource::Absent, default: &[0xff, 0xff], upload: true },
        AttributeDefinition { index: 5, access: AttributeAccess::ReadOnly, kind: AttributeKind::Scalar { length: 2 }, create: CreateSource::Absent, default: &[], upload: true },
    ];
    proof {
        assert(attributes@[0].default@ =~= Seq::<u8>::empty());
        assert(attributes@[1].default@ =~= Seq::<u8>::empty());
        assert(attributes@[2].default@ =~= Seq::<u8>::empty());
        assert(attributes@[3].default@ =~= seq![255u8, 255u8]);
        assert(attributes@[4].default@ =~= Seq::<u8>::empty());
        assert(attribute_views(attributes@) =~= spec_veip_attributes());
    }
    attributes
}

pub open spec fn spec_enhanced_security_attributes() -> Seq<AttributeDefinitionView> {
    seq![
        spec_read_write(1, 16),
        spec_read_write_table(2, 17),
        spec_read_write(3, 1),
        spec_with_default(spec_read_only(4, 1), seq![1u8]),
        spec_read_only_table(5, 16),
        spec_read_only_table(6, 16),
        spec_read_write_table(7, 17),
        spec_read_write(8, 1),
        spec_read_only(9, 1),
        spec_read_only(10, 16),
        spec_read_write_table(11, 18),
        spec_with_default(spec_read_only(12, 2), seq![0u8, 128u8]),
    ]
}

fn enhanced_security_attributes() -> (attributes: &'static [AttributeDefinition])
    ensures
        attribute_views(attributes@) == spec_enhanced_security_attributes(),
{
    let attributes: &'static [AttributeDefinition] = &[
        AttributeDefinition { index: 1, access: AttributeAccess::ReadWrite, kind: AttributeKind::Scalar { length: 16 }, create: CreateSource::Absent, default: &[], upload: true },
        AttributeDefinition { index: 2, access: AttributeAccess::ReadWrite, kind: AttributeKind::Table { row_length: 17 }, create: CreateSource::Absent, default: &[], upload: false },
        AttributeDefinition { index: 3, access: AttributeAccess::ReadWrite, kind: AttributeKind::Scalar { length: 1 }, create: CreateSource::Absent, default: &[], upload: true },
        AttributeDefinition { index: 4, access: AttributeAccess::ReadOnly, kind: AttributeKind::Scalar { length: 1 }, create: CreateSource::Absent, default: &[0x1], upload: true },
        AttributeDefinition { index: 5, access: AttributeAccess::ReadOnly, kind: AttributeKind::Table { row_length: 16 }, create: CreateSource::Absent, default: &[], upload: false },
        AttributeDefinition { index: 6, access: AttributeAccess::ReadOnly, kind: AttributeKind::Table { row_length: 16 }, create: CreateSource::Absent, default: &[], upload: false },
        AttributeDefinition { index: 7, access: AttributeAccess::ReadWrite, kind: AttributeKind::Table { row_length: 17 }, create: CreateSource::Absent, default: &[], upload: false },
        AttributeDefinition { index: 8, access: AttributeAccess::ReadWrite, kind: AttributeKind::Scalar { length: 1 }, create: CreateSource::Absent, default: &[], upload: true },
        AttributeDefinition { index: 9, access: AttributeAccess::ReadOnly, kind: AttributeKind::Scalar { length: 1 }, create: CreateSource::Absent, default: &[], upload: true },
        AttributeDefinition { index: 10, access: AttributeAccess::ReadOnly, kind: AttributeKind::Scalar { length: 16 }, create: CreateSource::Absent, default: &[], upload: true },
        AttributeDefinition { index: 11, access: AttributeAccess::ReadWrite, kind: AttributeKind::Table { row_length: 18 }, create: CreateSource::Absent, default: &[], upload: false },
        AttributeDefinition { index: 12, access: AttributeAccess::ReadOnly, kind: AttributeKind::Scalar { length: 2 }, create: CreateSource::Absent, default: &[0x0, 0x80], upload: true },
    ];
    proof {
        assert(attributes@[0].default@ =~= Seq::<u8>::empty());
        assert(attributes@[1].default@ =~= Seq::<u8>::empty());
        assert(attributes@[2].default@ =~= Seq::<u8>::empty());
        assert(attributes@[3].default@ =~= seq![1u8]);
        assert(attributes@[4].default@ =~= Seq::<u8>::empty());
        assert(attributes@[5].default@ =~= Seq::<u8>::empty());
        assert(attributes@[6].default@ =~= Seq::<u8>::empty());
        assert(attributes@[7].default@ =~= Seq::<u8>::empty());
        assert(attributes@[8].default@ =~= Seq::<u8>::empty());
        assert(attributes@[9].default@ =~= Seq::<u8>::empty());
        assert(attributes@[10].default@ =~= Seq::<u8>::empty());
        assert(attributes@[11].default@ =~= seq![0u8, 128u8]);
        assert(attribute_views(attributes@) =~= spec_enhanced_security_attributes());
    }
    attributes
}

pub open spec fn spec_ethernet_frame_extended_pm_attributes() -> Seq<AttributeDefinitionView> {
    seq![
        spec_read_only(1, 1),
        spec_required(spec_read_write(2, 16), 0),
        spec_runtime_only(spec_read_only(3, 4)),
        spec_runtime_only(spec_read_only(4, 4)),
        spec_runtime_only(spec_read_only(5, 4)),
        spec_runtime_only(spec_read_only(6, 4)),
        spec_runtime_only(spec_read_only(7, 4)),
        spec_runtime_only(spec_read_only(8, 4)),
        spec_runtime_only(spec_read_only(9, 4)),
        spec_runtime_only(spec_read_only(10, 4)),
        spec_runtime_only(spec_read_only(11, 4)),
        spec_runtime_only(spec_read_only(12, 4)),
        spec_runtime_only(spec_read_only(13, 4)),
        spec_runtime_only(spec_read_only(14, 4)),
        spec_runtime_only(spec_read_only(15, 4)),
        spec_runtime_only(spec_read_only(16, 4)),
    ]
}

fn ethernet_frame_extended_pm_attributes() -> (attributes: &'static [AttributeDefinition])
    ensures
        attribute_views(attributes@) == spec_ethernet_frame_extended_pm_attributes(),
{
    let attributes: &'static [AttributeDefinition] = &[
        AttributeDefinition { index: 1, access: AttributeAccess::ReadOnly, kind: AttributeKind::Scalar { length: 1 }, create: CreateSource::Absent, default: &[], upload: true },
        AttributeDefinition { index: 2, access: AttributeAccess::ReadWrite, kind: AttributeKind::Scalar { length: 16 }, create: CreateSource::Required { offset: 0 }, default: &[], upload: true },
        AttributeDefinition { index: 3, access: AttributeAccess::ReadOnly, kind: AttributeKind::Scalar { length: 4 }, create: CreateSource::Absent, default: &[], upload: false },
        AttributeDefinition { index: 4, access: AttributeAccess::ReadOnly, kind: AttributeKind::Scalar { length: 4 }, create: CreateSource::Absent, default: &[], upload: false },
        AttributeDefinition { index: 5, access: AttributeAccess::ReadOnly, kind: AttributeKind::Scalar { length: 4 }, create: CreateSource::Absent, default: &[], upload: false },
        AttributeDefinition { index: 6, access: AttributeAccess::ReadOnly, kind: AttributeKind::Scalar { length: 4 }, create: CreateSource::Absent, default: &[], upload: false },
        AttributeDefinition { index: 7, access: AttributeAccess::ReadOnly, kind: AttributeKind::Scalar { length: 4 }, create: CreateSource::Absent, default: &[], upload: false },
        AttributeDefinition { index: 8, access: AttributeAccess::ReadOnly, kind: AttributeKind::Scalar { length: 4 }, create: CreateSource::Absent, default: &[], upload: false },
        AttributeDefinition { index: 9, access: AttributeAccess::ReadOnly, kind: AttributeKind::Scalar { length: 4 }, create: CreateSource::Absent, default: &[], upload: false },
        AttributeDefinition { index: 10, access: AttributeAccess::ReadOnly, kind: AttributeKind::Scalar { length: 4 }, create: CreateSource::Absent, default: &[], upload: false },
        AttributeDefinition { index: 11, access: AttributeAccess::ReadOnly, kind: AttributeKind::Scalar { length: 4 }, create: CreateSource::Absent, default: &[], upload: false },
        AttributeDefinition { index: 12, access: AttributeAccess::ReadOnly, kind: AttributeKind::Scalar { length: 4 }, create: CreateSource::Absent, default: &[], upload: false },
        AttributeDefinition { index: 13, access: AttributeAccess::ReadOnly, kind: AttributeKind::Scalar { length: 4 }, create: CreateSource::Absent, default: &[], upload: false },
        AttributeDefinition { index: 14, access: AttributeAccess::ReadOnly, kind: AttributeKind::Scalar { length: 4 }, create: CreateSource::Absent, default: &[], upload: false },
        AttributeDefinition { index: 15, access: AttributeAccess::ReadOnly, kind: AttributeKind::Scalar { length: 4 }, create: CreateSource::Absent, default: &[], upload: false },
        AttributeDefinition { index: 16, access: AttributeAccess::ReadOnly, kind: AttributeKind::Scalar { length: 4 }, create: CreateSource::Absent, default: &[], upload: false },
    ];
    proof {
        assert(attributes@[0].default@ =~= Seq::<u8>::empty());
        assert(attributes@[1].default@ =~= Seq::<u8>::empty());
        assert(attributes@[2].default@ =~= Seq::<u8>::empty());
        assert(attributes@[3].default@ =~= Seq::<u8>::empty());
        assert(attributes@[4].default@ =~= Seq::<u8>::empty());
        assert(attributes@[5].default@ =~= Seq::<u8>::empty());
        assert(attributes@[6].default@ =~= Seq::<u8>::empty());
        assert(attributes@[7].default@ =~= Seq::<u8>::empty());
        assert(attributes@[8].default@ =~= Seq::<u8>::empty());
        assert(attributes@[9].default@ =~= Seq::<u8>::empty());
        assert(attributes@[10].default@ =~= Seq::<u8>::empty());
        assert(attributes@[11].default@ =~= Seq::<u8>::empty());
        assert(attributes@[12].default@ =~= Seq::<u8>::empty());
        assert(attributes@[13].default@ =~= Seq::<u8>::empty());
        assert(attributes@[14].default@ =~= Seq::<u8>::empty());
        assert(attributes@[15].default@ =~= Seq::<u8>::empty());
        assert(attribute_views(attributes@) =~= spec_ethernet_frame_extended_pm_attributes());
    }
    attributes
}

pub open spec fn spec_vendor_351_attributes() -> Seq<AttributeDefinitionView> {
    seq![
        spec_read_only(1, 1),
        spec_required(spec_read_write(2, 2), 0),
    ]
}

fn vendor_351_attributes() -> (attributes: &'static [AttributeDefinition])
    ensures
        attribute_views(attributes@) == spec_vendor_351_attributes(),
{
    let attributes: &'static [AttributeDefinition] = &[
        AttributeDefinition { index: 1, access: AttributeAccess::ReadOnly, kind: AttributeKind::Scalar { length: 1 }, create: CreateSource::Absent, default: &[], upload: true },
        AttributeDefinition { index: 2, access: AttributeAccess::ReadWrite, kind: AttributeKind::Scalar { length: 2 }, create: CreateSource::Required { offset: 0 }, default: &[], upload: true },
    ];
    proof {
        assert(attributes@[0].default@ =~= Seq::<u8>::empty());
        assert(attributes@[1].default@ =~= Seq::<u8>::empty());
        assert(attribute_views(attributes@) =~= spec_vendor_351_attributes());
    }
    attributes
}

pub open spec fn spec_ctc_loid_attributes() -> Seq<AttributeDefinitionView> {
    seq![
        spec_read_only(1, 4),
        spec_read_only(2, 24),
        spec_read_only(3, 12),
        spec_read_write(4, 1),
    ]
}

fn ctc_loid_attributes() -> (attributes: &'static [AttributeDefinition])
    ensures
        attribute_views(attributes@) == spec_ctc_loid_attributes(),
{
    let attributes: &'static [AttributeDefinition] = &[
        AttributeDefinition { index: 1, access: AttributeAccess::ReadOnly, kind: AttributeKind::Scalar { length: 4 }, create: CreateSource::Absent, default: &[], upload: true },
        AttributeDefinition { index: 2, access: AttributeAccess::ReadOnly, kind: AttributeKind::Scalar { length: 24 }, create: CreateSource::Absent, default: &[], upload: true },
        AttributeDefinition { index: 3, access: AttributeAccess::ReadOnly, kind: AttributeKind::Scalar { length: 12 }, create: CreateSource::Absent, default: &[], upload: true },
        AttributeDefinition { index: 4, access: AttributeAccess::ReadWrite, kind: AttributeKind::Scalar { length: 1 }, create: CreateSource::Absent, default: &[], upload: true },
    ];
    proof {
        assert(attributes@[0].default@ =~= Seq::<u8>::empty());
        assert(attributes@[1].default@ =~= Seq::<u8>::empty());
        assert(attributes@[2].default@ =~= Seq::<u8>::empty());
        assert(attributes@[3].default@ =~= Seq::<u8>::empty());
        assert(attribute_views(attributes@) =~= spec_ctc_loid_attributes());
    }
    attributes
}
fn no_attributes() -> (attributes: &'static [AttributeDefinition])
    ensures
        attribute_views(attributes@) == Seq::<AttributeDefinitionView>::empty(),
{
    let attributes: &'static [AttributeDefinition] = &[];
    assert(attribute_views(attributes@) =~= Seq::<AttributeDefinitionView>::empty());
    attributes
}

#[verifier::opaque]
pub open spec fn spec_managed_entity(class_id: u16) -> Option<ManagedEntityDefinitionView> {
    match class_id {
        CLASS_ONU_DATA => Some(ManagedEntityDefinitionView { class_id: CLASS_ONU_DATA, name: "ONU data"@, origin: ManagedEntityOrigin::Onu, actions: ACTIONS_ONU_RW | ACTION_BIT_MIB_UPLOAD | ACTION_BIT_MIB_UPLOAD_NEXT | ACTION_BIT_MIB_RESET | ACTION_BIT_GET_ALL_ALARMS | ACTION_BIT_GET_ALL_ALARMS_NEXT, attributes: spec_onu_data_attributes() }),
        CLASS_CARDHOLDER => Some(ManagedEntityDefinitionView { class_id: CLASS_CARDHOLDER, name: "Cardholder"@, origin: ManagedEntityOrigin::Onu, actions: ACTIONS_ONU_RW, attributes: spec_cardholder_attributes() }),
        CLASS_CIRCUIT_PACK => Some(ManagedEntityDefinitionView { class_id: CLASS_CIRCUIT_PACK, name: "Circuit pack"@, origin: ManagedEntityOrigin::Onu, actions: ACTIONS_ONU_RW, attributes: spec_circuit_pack_attributes() }),
        CLASS_SOFTWARE_IMAGE => Some(ManagedEntityDefinitionView { class_id: CLASS_SOFTWARE_IMAGE, name: "Software image"@, origin: ManagedEntityOrigin::Onu, actions: ACTIONS_GET, attributes: spec_software_image_attributes() }),
        CLASS_PPTP_ETHERNET_UNI => Some(ManagedEntityDefinitionView { class_id: CLASS_PPTP_ETHERNET_UNI, name: "PPTP Ethernet UNI"@, origin: ManagedEntityOrigin::Onu, actions: ACTIONS_ONU_RW, attributes: spec_ethernet_uni_attributes() }),
        CLASS_ETHERNET_PM_HISTORY_DATA => Some(ManagedEntityDefinitionView { class_id: CLASS_ETHERNET_PM_HISTORY_DATA, name: "Ethernet PM history data"@, origin: ManagedEntityOrigin::Olt, actions: ACTIONS_PM, attributes: spec_ethernet_pm_attributes() }),
        CLASS_MAC_BRIDGE_SERVICE_PROFILE => Some(ManagedEntityDefinitionView { class_id: CLASS_MAC_BRIDGE_SERVICE_PROFILE, name: "MAC bridge service profile"@, origin: ManagedEntityOrigin::Olt, actions: ACTIONS_OLT_RW, attributes: spec_mac_bridge_service_attributes() }),
        CLASS_MAC_BRIDGE_PORT_CONFIG_DATA => Some(ManagedEntityDefinitionView { class_id: CLASS_MAC_BRIDGE_PORT_CONFIG_DATA, name: "MAC bridge port configuration data"@, origin: ManagedEntityOrigin::Olt, actions: ACTIONS_OLT_RW, attributes: spec_mac_bridge_port_attributes() }),
        CLASS_MAC_BRIDGE_PORT_PM_HISTORY_DATA => Some(ManagedEntityDefinitionView { class_id: CLASS_MAC_BRIDGE_PORT_PM_HISTORY_DATA, name: "MAC bridge port PM history data"@, origin: ManagedEntityOrigin::Olt, actions: ACTIONS_PM, attributes: spec_mac_bridge_port_pm_attributes() }),
        CLASS_MAC_BRIDGE_PORT_FILTER_PREASSIGN_DATA => Some(ManagedEntityDefinitionView { class_id: CLASS_MAC_BRIDGE_PORT_FILTER_PREASSIGN_DATA, name: "MAC bridge port filter preassign table"@, origin: ManagedEntityOrigin::Onu, actions: ACTIONS_ONU_RW, attributes: spec_filter_preassign_attributes() }),
        CLASS_VLAN_TAGGING_FILTER => Some(ManagedEntityDefinitionView { class_id: CLASS_VLAN_TAGGING_FILTER, name: "VLAN tagging filter data"@, origin: ManagedEntityOrigin::Olt, actions: ACTIONS_OLT_RW, attributes: spec_vlan_filter_attributes() }),
        CLASS_ETHERNET_PM_HISTORY_DATA_2 => Some(ManagedEntityDefinitionView { class_id: CLASS_ETHERNET_PM_HISTORY_DATA_2, name: "Ethernet PM history data 2"@, origin: ManagedEntityOrigin::Olt, actions: ACTIONS_PM, attributes: spec_ethernet_pm_2_attributes() }),
        CLASS_IEEE_8021P_MAPPER => Some(ManagedEntityDefinitionView { class_id: CLASS_IEEE_8021P_MAPPER, name: "IEEE 802.1p mapper service profile"@, origin: ManagedEntityOrigin::Olt, actions: ACTIONS_OLT_RW, attributes: spec_ieee_8021p_mapper_attributes() }),
        CLASS_OLT_G => Some(ManagedEntityDefinitionView { class_id: CLASS_OLT_G, name: "OLT-G"@, origin: ManagedEntityOrigin::Onu, actions: ACTIONS_ONU_RW, attributes: spec_olt_g_attributes() }),
        CLASS_ONU_POWER_SHEDDING => Some(ManagedEntityDefinitionView { class_id: CLASS_ONU_POWER_SHEDDING, name: "ONU power shedding"@, origin: ManagedEntityOrigin::Onu, actions: ACTIONS_ONU_RW, attributes: spec_power_shedding_attributes() }),
        CLASS_EXTENDED_VLAN_TAGGING => Some(ManagedEntityDefinitionView { class_id: CLASS_EXTENDED_VLAN_TAGGING, name: "Extended VLAN tagging operation configuration data"@, origin: ManagedEntityOrigin::Olt, actions: ACTIONS_OLT_TABLE, attributes: spec_extended_vlan_attributes() }),
        CLASS_VENDOR_247 => Some(ManagedEntityDefinitionView { class_id: CLASS_VENDOR_247, name: "Vendor class 247"@, origin: ManagedEntityOrigin::Onu, actions: ACTIONS_GET, attributes: Seq::empty() }),
        CLASS_ONU_G => Some(ManagedEntityDefinitionView { class_id: CLASS_ONU_G, name: "ONU-G"@, origin: ManagedEntityOrigin::Onu, actions: ACTIONS_ONU_RW | ACTION_BIT_SYNCHRONIZE_TIME, attributes: spec_onu_g_attributes() }),
        CLASS_ONU2_G => Some(ManagedEntityDefinitionView { class_id: CLASS_ONU2_G, name: "ONU2-G"@, origin: ManagedEntityOrigin::Onu, actions: ACTIONS_ONU_RW, attributes: spec_onu2_g_attributes() }),
        CLASS_TCONT => Some(ManagedEntityDefinitionView { class_id: CLASS_TCONT, name: "T-CONT"@, origin: ManagedEntityOrigin::Onu, actions: ACTIONS_ONU_RW, attributes: spec_tcont_attributes() }),
        CLASS_ANI_G => Some(ManagedEntityDefinitionView { class_id: CLASS_ANI_G, name: "ANI-G"@, origin: ManagedEntityOrigin::Onu, actions: ACTIONS_ONU_RW, attributes: spec_ani_g_attributes() }),
        CLASS_UNI_G => Some(ManagedEntityDefinitionView { class_id: CLASS_UNI_G, name: "UNI-G"@, origin: ManagedEntityOrigin::Onu, actions: ACTIONS_ONU_RW, attributes: spec_uni_g_attributes() }),
        CLASS_GEM_INTERWORKING_TP => Some(ManagedEntityDefinitionView { class_id: CLASS_GEM_INTERWORKING_TP, name: "GEM interworking termination point"@, origin: ManagedEntityOrigin::Olt, actions: ACTIONS_OLT_RW, attributes: spec_gem_interworking_attributes() }),
        CLASS_GEM_PORT_PM_HISTORY_DATA => Some(ManagedEntityDefinitionView { class_id: CLASS_GEM_PORT_PM_HISTORY_DATA, name: "GEM port PM history data"@, origin: ManagedEntityOrigin::Olt, actions: ACTIONS_PM, attributes: spec_gem_port_pm_attributes() }),
        CLASS_GEM_PORT_NETWORK_CTP => Some(ManagedEntityDefinitionView { class_id: CLASS_GEM_PORT_NETWORK_CTP, name: "GEM port network CTP"@, origin: ManagedEntityOrigin::Olt, actions: ACTIONS_OLT_RW, attributes: spec_gem_port_attributes() }),
        CLASS_GAL_ETHERNET_PROFILE => Some(ManagedEntityDefinitionView { class_id: CLASS_GAL_ETHERNET_PROFILE, name: "GAL Ethernet profile"@, origin: ManagedEntityOrigin::Olt, actions: ACTIONS_OLT_RW, attributes: spec_gal_profile_attributes() }),
        CLASS_THRESHOLD_DATA_1 => Some(ManagedEntityDefinitionView { class_id: CLASS_THRESHOLD_DATA_1, name: "Threshold data 1"@, origin: ManagedEntityOrigin::Olt, actions: ACTIONS_OLT_RW, attributes: spec_threshold_attributes() }),
        CLASS_THRESHOLD_DATA_2 => Some(ManagedEntityDefinitionView { class_id: CLASS_THRESHOLD_DATA_2, name: "Threshold data 2"@, origin: ManagedEntityOrigin::Olt, actions: ACTIONS_OLT_RW, attributes: spec_threshold_attributes() }),
        CLASS_PRIORITY_QUEUE => Some(ManagedEntityDefinitionView { class_id: CLASS_PRIORITY_QUEUE, name: "Priority queue"@, origin: ManagedEntityOrigin::Onu, actions: ACTIONS_ONU_RW, attributes: spec_priority_queue_attributes() }),
        CLASS_TRAFFIC_SCHEDULER => Some(ManagedEntityDefinitionView { class_id: CLASS_TRAFFIC_SCHEDULER, name: "Traffic scheduler"@, origin: ManagedEntityOrigin::Onu, actions: ACTIONS_ONU_RW, attributes: spec_traffic_scheduler_attributes() }),
        CLASS_TRAFFIC_DESCRIPTOR => Some(ManagedEntityDefinitionView { class_id: CLASS_TRAFFIC_DESCRIPTOR, name: "GEM traffic descriptor"@, origin: ManagedEntityOrigin::Olt, actions: ACTIONS_OLT_RW, attributes: spec_traffic_descriptor_attributes() }),
        CLASS_MULTICAST_GEM_INTERWORKING_TP => Some(ManagedEntityDefinitionView { class_id: CLASS_MULTICAST_GEM_INTERWORKING_TP, name: "Multicast GEM interworking termination point"@, origin: ManagedEntityOrigin::Olt, actions: ACTIONS_OLT_TABLE, attributes: spec_multicast_gem_attributes() }),
        CLASS_OMCI => Some(ManagedEntityDefinitionView { class_id: CLASS_OMCI, name: "OMCI"@, origin: ManagedEntityOrigin::Onu, actions: ACTIONS_GET | ACTION_BIT_GET_NEXT, attributes: spec_omci_attributes() }),
        CLASS_ETHERNET_PM_HISTORY_DATA_3 => Some(ManagedEntityDefinitionView { class_id: CLASS_ETHERNET_PM_HISTORY_DATA_3, name: "Ethernet PM history data 3"@, origin: ManagedEntityOrigin::Olt, actions: ACTIONS_PM, attributes: spec_ethernet_pm_attributes() }),
        CLASS_MULTICAST_OPERATIONS_PROFILE => Some(ManagedEntityDefinitionView { class_id: CLASS_MULTICAST_OPERATIONS_PROFILE, name: "Multicast operations profile"@, origin: ManagedEntityOrigin::Olt, actions: ACTIONS_OLT_TABLE, attributes: spec_multicast_operations_attributes() }),
        CLASS_MULTICAST_SUBSCRIBER_CONFIG => Some(ManagedEntityDefinitionView { class_id: CLASS_MULTICAST_SUBSCRIBER_CONFIG, name: "Multicast subscriber configuration info"@, origin: ManagedEntityOrigin::Olt, actions: ACTIONS_OLT_RW, attributes: spec_multicast_subscriber_attributes() }),
        CLASS_MULTICAST_SUBSCRIBER_MONITOR => Some(ManagedEntityDefinitionView { class_id: CLASS_MULTICAST_SUBSCRIBER_MONITOR, name: "Multicast subscriber monitor"@, origin: ManagedEntityOrigin::Olt, actions: ACTIONS_OLT_TABLE, attributes: spec_multicast_monitor_attributes() }),
        CLASS_FEC_PM_HISTORY_DATA => Some(ManagedEntityDefinitionView { class_id: CLASS_FEC_PM_HISTORY_DATA, name: "FEC PM history data"@, origin: ManagedEntityOrigin::Olt, actions: ACTIONS_PM, attributes: spec_fec_pm_attributes() }),
        CLASS_VEIP => Some(ManagedEntityDefinitionView { class_id: CLASS_VEIP, name: "Virtual Ethernet interface point"@, origin: ManagedEntityOrigin::Onu, actions: ACTIONS_ONU_RW, attributes: spec_veip_attributes() }),
        CLASS_ENHANCED_SECURITY_CONTROL => Some(ManagedEntityDefinitionView { class_id: CLASS_ENHANCED_SECURITY_CONTROL, name: "Enhanced security control"@, origin: ManagedEntityOrigin::Onu, actions: ACTIONS_ONU_RW | ACTION_BIT_GET_NEXT, attributes: spec_enhanced_security_attributes() }),
        CLASS_ETHERNET_FRAME_EXTENDED_PM => Some(ManagedEntityDefinitionView { class_id: CLASS_ETHERNET_FRAME_EXTENDED_PM, name: "Ethernet frame extended PM"@, origin: ManagedEntityOrigin::Olt, actions: ACTIONS_PM, attributes: spec_ethernet_frame_extended_pm_attributes() }),
        CLASS_VENDOR_351 => Some(ManagedEntityDefinitionView { class_id: CLASS_VENDOR_351, name: "Vendor class 351"@, origin: ManagedEntityOrigin::Olt, actions: ACTIONS_PM, attributes: spec_vendor_351_attributes() }),
        CLASS_CTC_LOID_AUTH => Some(ManagedEntityDefinitionView { class_id: CLASS_CTC_LOID_AUTH, name: "CTC LOID authentication"@, origin: ManagedEntityOrigin::Onu, actions: ACTIONS_ONU_RW, attributes: spec_ctc_loid_attributes() }),
        _ => None,
    }
}

/// Looks up the definition of a managed-entity class.
pub fn managed_entity(class_id: u16) -> (definition: Option<ManagedEntityDefinition>)
    ensures
        definition_view(definition) == spec_managed_entity(class_id),
{
    reveal(spec_managed_entity);
    match class_id {
        CLASS_ONU_DATA => Some(ManagedEntityDefinition { class_id: CLASS_ONU_DATA, name: "ONU data", origin: ManagedEntityOrigin::Onu, actions: ACTIONS_ONU_RW | ACTION_BIT_MIB_UPLOAD | ACTION_BIT_MIB_UPLOAD_NEXT | ACTION_BIT_MIB_RESET | ACTION_BIT_GET_ALL_ALARMS | ACTION_BIT_GET_ALL_ALARMS_NEXT, attributes: onu_data_attributes() }),
        CLASS_CARDHOLDER => Some(ManagedEntityDefinition { class_id: CLASS_CARDHOLDER, name: "Cardholder", origin: ManagedEntityOrigin::Onu, actions: ACTIONS_ONU_RW, attributes: cardholder_attributes() }),
        CLASS_CIRCUIT_PACK => Some(ManagedEntityDefinition { class_id: CLASS_CIRCUIT_PACK, name: "Circuit pack", origin: ManagedEntityOrigin::Onu, actions: ACTIONS_ONU_RW, attributes: circuit_pack_attributes() }),
        CLASS_SOFTWARE_IMAGE => Some(ManagedEntityDefinition { class_id: CLASS_SOFTWARE_IMAGE, name: "Software image", origin: ManagedEntityOrigin::Onu, actions: ACTIONS_GET, attributes: software_image_attributes() }),
        CLASS_PPTP_ETHERNET_UNI => Some(ManagedEntityDefinition { class_id: CLASS_PPTP_ETHERNET_UNI, name: "PPTP Ethernet UNI", origin: ManagedEntityOrigin::Onu, actions: ACTIONS_ONU_RW, attributes: ethernet_uni_attributes() }),
        CLASS_ETHERNET_PM_HISTORY_DATA => Some(ManagedEntityDefinition { class_id: CLASS_ETHERNET_PM_HISTORY_DATA, name: "Ethernet PM history data", origin: ManagedEntityOrigin::Olt, actions: ACTIONS_PM, attributes: ethernet_pm_attributes() }),
        CLASS_MAC_BRIDGE_SERVICE_PROFILE => Some(ManagedEntityDefinition { class_id: CLASS_MAC_BRIDGE_SERVICE_PROFILE, name: "MAC bridge service profile", origin: ManagedEntityOrigin::Olt, actions: ACTIONS_OLT_RW, attributes: mac_bridge_service_attributes() }),
        CLASS_MAC_BRIDGE_PORT_CONFIG_DATA => Some(ManagedEntityDefinition { class_id: CLASS_MAC_BRIDGE_PORT_CONFIG_DATA, name: "MAC bridge port configuration data", origin: ManagedEntityOrigin::Olt, actions: ACTIONS_OLT_RW, attributes: mac_bridge_port_attributes() }),
        CLASS_MAC_BRIDGE_PORT_PM_HISTORY_DATA => Some(ManagedEntityDefinition { class_id: CLASS_MAC_BRIDGE_PORT_PM_HISTORY_DATA, name: "MAC bridge port PM history data", origin: ManagedEntityOrigin::Olt, actions: ACTIONS_PM, attributes: mac_bridge_port_pm_attributes() }),
        CLASS_MAC_BRIDGE_PORT_FILTER_PREASSIGN_DATA => Some(ManagedEntityDefinition { class_id: CLASS_MAC_BRIDGE_PORT_FILTER_PREASSIGN_DATA, name: "MAC bridge port filter preassign table", origin: ManagedEntityOrigin::Onu, actions: ACTIONS_ONU_RW, attributes: filter_preassign_attributes() }),
        CLASS_VLAN_TAGGING_FILTER => Some(ManagedEntityDefinition { class_id: CLASS_VLAN_TAGGING_FILTER, name: "VLAN tagging filter data", origin: ManagedEntityOrigin::Olt, actions: ACTIONS_OLT_RW, attributes: vlan_filter_attributes() }),
        CLASS_ETHERNET_PM_HISTORY_DATA_2 => Some(ManagedEntityDefinition { class_id: CLASS_ETHERNET_PM_HISTORY_DATA_2, name: "Ethernet PM history data 2", origin: ManagedEntityOrigin::Olt, actions: ACTIONS_PM, attributes: ethernet_pm_2_attributes() }),
        CLASS_IEEE_8021P_MAPPER => Some(ManagedEntityDefinition { class_id: CLASS_IEEE_8021P_MAPPER, name: "IEEE 802.1p mapper service profile", origin: ManagedEntityOrigin::Olt, actions: ACTIONS_OLT_RW, attributes: ieee_8021p_mapper_attributes() }),
        CLASS_OLT_G => Some(ManagedEntityDefinition { class_id: CLASS_OLT_G, name: "OLT-G", origin: ManagedEntityOrigin::Onu, actions: ACTIONS_ONU_RW, attributes: olt_g_attributes() }),
        CLASS_ONU_POWER_SHEDDING => Some(ManagedEntityDefinition { class_id: CLASS_ONU_POWER_SHEDDING, name: "ONU power shedding", origin: ManagedEntityOrigin::Onu, actions: ACTIONS_ONU_RW, attributes: power_shedding_attributes() }),
        CLASS_EXTENDED_VLAN_TAGGING => Some(ManagedEntityDefinition { class_id: CLASS_EXTENDED_VLAN_TAGGING, name: "Extended VLAN tagging operation configuration data", origin: ManagedEntityOrigin::Olt, actions: ACTIONS_OLT_TABLE, attributes: extended_vlan_attributes() }),
        CLASS_VENDOR_247 => Some(ManagedEntityDefinition { class_id: CLASS_VENDOR_247, name: "Vendor class 247", origin: ManagedEntityOrigin::Onu, actions: ACTIONS_GET, attributes: no_attributes() }),
        CLASS_ONU_G => Some(ManagedEntityDefinition { class_id: CLASS_ONU_G, name: "ONU-G", origin: ManagedEntityOrigin::Onu, actions: ACTIONS_ONU_RW | ACTION_BIT_SYNCHRONIZE_TIME, attributes: onu_g_attributes() }),
        CLASS_ONU2_G => Some(ManagedEntityDefinition { class_id: CLASS_ONU2_G, name: "ONU2-G", origin: ManagedEntityOrigin::Onu, actions: ACTIONS_ONU_RW, attributes: onu2_g_attributes() }),
        CLASS_TCONT => Some(ManagedEntityDefinition { class_id: CLASS_TCONT, name: "T-CONT", origin: ManagedEntityOrigin::Onu, actions: ACTIONS_ONU_RW, attributes: tcont_attributes() }),
        CLASS_ANI_G => Some(ManagedEntityDefinition { class_id: CLASS_ANI_G, name: "ANI-G", origin: ManagedEntityOrigin::Onu, actions: ACTIONS_ONU_RW, attributes: ani_g_attributes() }),
        CLASS_UNI_G => Some(ManagedEntityDefinition { class_id: CLASS_UNI_G, name: "UNI-G", origin: ManagedEntityOrigin::Onu, actions: ACTIONS_ONU_RW, attributes: uni_g_attributes() }),
        CLASS_GEM_INTERWORKING_TP => Some(ManagedEntityDefinition { class_id: CLASS_GEM_INTERWORKING_TP, name: "GEM interworking termination point", origin: ManagedEntityOrigin::Olt, actions: ACTIONS_OLT_RW, attributes: gem_interworking_attributes() }),
        CLASS_GEM_PORT_PM_HISTORY_DATA => Some(ManagedEntityDefinition { class_id: CLASS_GEM_PORT_PM_HISTORY_DATA, name: "GEM port PM history data", origin: ManagedEntityOrigin::Olt, actions: ACTIONS_PM, attributes: gem_port_pm_attributes() }),
        CLASS_GEM_PORT_NETWORK_CTP => Some(ManagedEntityDefinition { class_id: CLASS_GEM_PORT_NETWORK_CTP, name: "GEM port network CTP", origin: ManagedEntityOrigin::Olt, actions: ACTIONS_OLT_RW, attributes: gem_port_attributes() }),
        CLASS_GAL_ETHERNET_PROFILE => Some(ManagedEntityDefinition { class_id: CLASS_GAL_ETHERNET_PROFILE, name: "GAL Ethernet profile", origin: ManagedEntityOrigin::Olt, actions: ACTIONS_OLT_RW, attributes: gal_profile_attributes() }),
        CLASS_THRESHOLD_DATA_1 => Some(ManagedEntityDefinition { class_id: CLASS_THRESHOLD_DATA_1, name: "Threshold data 1", origin: ManagedEntityOrigin::Olt, actions: ACTIONS_OLT_RW, attributes: threshold_attributes() }),
        CLASS_THRESHOLD_DATA_2 => Some(ManagedEntityDefinition { class_id: CLASS_THRESHOLD_DATA_2, name: "Threshold data 2", origin: ManagedEntityOrigin::Olt, actions: ACTIONS_OLT_RW, attributes: threshold_attributes() }),
        CLASS_PRIORITY_QUEUE => Some(ManagedEntityDefinition { class_id: CLASS_PRIORITY_QUEUE, name: "Priority queue", origin: ManagedEntityOrigin::Onu, actions: ACTIONS_ONU_RW, attributes: priority_queue_attributes() }),
        CLASS_TRAFFIC_SCHEDULER => Some(ManagedEntityDefinition { class_id: CLASS_TRAFFIC_SCHEDULER, name: "Traffic scheduler", origin: ManagedEntityOrigin::Onu, actions: ACTIONS_ONU_RW, attributes: traffic_scheduler_attributes() }),
        CLASS_TRAFFIC_DESCRIPTOR => Some(ManagedEntityDefinition { class_id: CLASS_TRAFFIC_DESCRIPTOR, name: "GEM traffic descriptor", origin: ManagedEntityOrigin::Olt, actions: ACTIONS_OLT_RW, attributes: traffic_descriptor_attributes() }),
        CLASS_MULTICAST_GEM_INTERWORKING_TP => Some(ManagedEntityDefinition { class_id: CLASS_MULTICAST_GEM_INTERWORKING_TP, name: "Multicast GEM interworking termination point", origin: ManagedEntityOrigin::Olt, actions: ACTIONS_OLT_TABLE, attributes: multicast_gem_attributes() }),
        CLASS_OMCI => Some(ManagedEntityDefinition { class_id: CLASS_OMCI, name: "OMCI", origin: ManagedEntityOrigin::Onu, actions: ACTIONS_GET | ACTION_BIT_GET_NEXT, attributes: omci_attributes() }),
        CLASS_ETHERNET_PM_HISTORY_DATA_3 => Some(ManagedEntityDefinition { class_id: CLASS_ETHERNET_PM_HISTORY_DATA_3, name: "Ethernet PM history data 3", origin: ManagedEntityOrigin::Olt, actions: ACTIONS_PM, attributes: ethernet_pm_attributes() }),
        CLASS_MULTICAST_OPERATIONS_PROFILE => Some(ManagedEntityDefinition { class_id: CLASS_MULTICAST_OPERATIONS_PROFILE, name: "Multicast operations profile", origin: ManagedEntityOrigin::Olt, actions: ACTIONS_OLT_TABLE, attributes: multicast_operations_attributes() }),
        CLASS_MULTICAST_SUBSCRIBER_CONFIG => Some(ManagedEntityDefinition { class_id: CLASS_MULTICAST_SUBSCRIBER_CONFIG, name: "Multicast subscriber configuration info", origin: ManagedEntityOrigin::Olt, actions: ACTIONS_OLT_RW, attributes: multicast_subscriber_attributes() }),
        CLASS_MULTICAST_SUBSCRIBER_MONITOR => Some(ManagedEntityDefinition { class_id: CLASS_MULTICAST_SUBSCRIBER_MONITOR, name: "Multicast subscriber monitor", origin: ManagedEntityOrigin::Olt, actions: ACTIONS_OLT_TABLE, attributes: multicast_monitor_attributes() }),
        CLASS_FEC_PM_HISTORY_DATA => Some(ManagedEntityDefinition { class_id: CLASS_FEC_PM_HISTORY_DATA, name: "FEC PM history data", origin: ManagedEntityOrigin::Olt, actions: ACTIONS_PM, attributes: fec_pm_attributes() }),
        CLASS_VEIP => Some(ManagedEntityDefinition { class_id: CLASS_VEIP, name: "Virtual Ethernet interface point", origin: ManagedEntityOrigin::Onu, actions: ACTIONS_ONU_RW, attributes: veip_attributes() }),
        CLASS_ENHANCED_SECURITY_CONTROL => Some(ManagedEntityDefinition { class_id: CLASS_ENHANCED_SECURITY_CONTROL, name: "Enhanced security control", origin: ManagedEntityOrigin::Onu, actions: ACTIONS_ONU_RW | ACTION_BIT_GET_NEXT, attributes: enhanced_security_attributes() }),
        CLASS_ETHERNET_FRAME_EXTENDED_PM => Some(ManagedEntityDefinition { class_id: CLASS_ETHERNET_FRAME_EXTENDED_PM, name: "Ethernet frame extended PM", origin: ManagedEntityOrigin::Olt, actions: ACTIONS_PM, attributes: ethernet_frame_extended_pm_attributes() }),
        CLASS_VENDOR_351 => Some(ManagedEntityDefinition { class_id: CLASS_VENDOR_351, name: "Vendor class 351", origin: ManagedEntityOrigin::Olt, actions: ACTIONS_PM, attributes: vendor_351_attributes() }),
        CLASS_CTC_LOID_AUTH => Some(ManagedEntityDefinition { class_id: CLASS_CTC_LOID_AUTH, name: "CTC LOID authentication", origin: ManagedEntityOrigin::Onu, actions: ACTIONS_ONU_RW, attributes: ctc_loid_attributes() }),
        _ => None,
    }
}

/// The class IDs of every defined managed entity, in table order.
pub open spec fn spec_class_ids() -> Seq<u16> {
    seq![CLASS_ONU_DATA, CLASS_CARDHOLDER, CLASS_CIRCUIT_PACK, CLASS_SOFTWARE_IMAGE, CLASS_PPTP_ETHERNET_UNI, CLASS_ETHERNET_PM_HISTORY_DATA, CLASS_MAC_BRIDGE_SERVICE_PROFILE, CLASS_MAC_BRIDGE_PORT_CONFIG_DATA, CLASS_MAC_BRIDGE_PORT_PM_HISTORY_DATA, CLASS_MAC_BRIDGE_PORT_FILTER_PREASSIGN_DATA, CLASS_VLAN_TAGGING_FILTER, CLASS_ETHERNET_PM_HISTORY_DATA_2, CLASS_IEEE_8021P_MAPPER, CLASS_OLT_G, CLASS_ONU_POWER_SHEDDING, CLASS_EXTENDED_VLAN_TAGGING, CLASS_VENDOR_247, CLASS_ONU_G, CLASS_ONU2_G, CLASS_TCONT, CLASS_ANI_G, CLASS_UNI_G, CLASS_GEM_INTERWORKING_TP, CLASS_GEM_PORT_PM_HISTORY_DATA, CLASS_GEM_PORT_NETWORK_CTP, CLASS_GAL_ETHERNET_PROFILE, CLASS_THRESHOLD_DATA_1, CLASS_THRESHOLD_DATA_2, CLASS_PRIORITY_QUEUE, CLASS_TRAFFIC_SCHEDULER, CLASS_TRAFFIC_DESCRIPTOR, CLASS_MULTICAST_GEM_INTERWORKING_TP, CLASS_OMCI, CLASS_ETHERNET_PM_HISTORY_DATA_3, CLASS_MULTICAST_OPERATIONS_PROFILE, CLASS_MULTICAST_SUBSCRIBER_CONFIG, CLASS_MULTICAST_SUBSCRIBER_MONITOR, CLASS_FEC_PM_HISTORY_DATA, CLASS_VEIP, CLASS_ENHANCED_SECURITY_CONTROL, CLASS_ETHERNET_FRAME_EXTENDED_PM, CLASS_VENDOR_351, CLASS_CTC_LOID_AUTH]
}

pub open spec fn attribute_wire_safe(attribute: AttributeDefinitionView) -> bool {
    &&& 1 <= attribute.index <= 16
    &&& match attribute.kind {
        AttributeKind::Scalar { length } => length > 0 && (attribute.default.len() == 0
            || attribute.default.len() == length),
        AttributeKind::Table { row_length } => {
            &&& row_length > 0
            &&& attribute.default.len() == 0
            &&& attribute.access == AttributeAccess::ReadWrite ==> row_length >= 8
        },
    }
}

pub open spec fn attributes_wire_safe(attributes: Seq<AttributeDefinitionView>) -> bool {
    &&& forall|i: int| 0 <= i < attributes.len() ==> attribute_wire_safe(#[trigger] attributes[i])
    &&& forall|i: int, j: int|
        0 <= i < j < attributes.len() ==> #[trigger] attributes[i].index < #[trigger] attributes[j].index
}

proof fn lemma_adjacent_indexes_sorted(s: Seq<AttributeDefinitionView>)
    requires
        forall|i: int| 0 < i < s.len() ==> s[i - 1].index < #[trigger] s[i].index,
        forall|i: int| 0 <= i < s.len() ==> attribute_wire_safe(#[trigger] s[i]),
    ensures
        attributes_wire_safe(s),
    decreases s.len(),
{
    if s.len() > 0 {
        let t = s.drop_last();
        assert forall|i: int| 0 < i < t.len() implies t[i - 1].index < #[trigger] t[i].index by {
            assert(s[i] == t[i] && s[i - 1] == t[i - 1]);
        }
        assert forall|i: int| 0 <= i < t.len() implies attribute_wire_safe(#[trigger] t[i]) by {
            assert(s[i] == t[i]);
        }
        lemma_adjacent_indexes_sorted(t);
        assert forall|i: int, j: int| 0 <= i < j < s.len() implies #[trigger] s[i].index < #[trigger] s[j].index by {
            if j < s.len() - 1 {
                assert(s[i] == t[i] && s[j] == t[j]);
            } else if i < j - 1 {
                assert(s[i] == t[i] && s[j - 1] == t[j - 1]);
                assert(t[i].index < t[j - 1].index);
            }
        }
    }
}

pub open spec fn definition_views(definitions: Seq<ManagedEntityDefinition>) -> Seq<ManagedEntityDefinitionView> {
    definitions.map_values(|d: ManagedEntityDefinition| d@)
}

/// Every managed-entity definition, in table order.
pub open spec fn spec_managed_entities() -> Seq<ManagedEntityDefinitionView> {
    spec_class_ids().map_values(|class_id: u16| spec_managed_entity(class_id).unwrap())
}

/// The definitions are sorted by class ID and each class appears once.
pub proof fn lemma_managed_entities_are_sorted_and_unique()
    ensures
        forall|i: int, j: int|
            0 <= i < j < spec_managed_entities().len() ==> #[trigger] spec_managed_entities()[i].class_id
                < #[trigger] spec_managed_entities()[j].class_id,
        forall|c: u16| #[trigger] spec_managed_entity(c) is Some <==> spec_class_ids().contains(c),
{
    lemma_class_ids_adjacent();
    lemma_class_ids_defined();
    let s = spec_class_ids();
    lemma_u16_adjacent_sorted(s);
    assert forall|c: u16| spec_class_ids().contains(c) implies #[trigger] spec_managed_entity(c) is Some by {
        let i = choose|i: int| 0 <= i < s.len() && s[i] == c;
        assert(spec_managed_entity(s[i]) is Some);
    }
}

proof fn lemma_u16_adjacent_sorted(s: Seq<u16>)
    requires
        forall|i: int| 0 < i < s.len() ==> s[i - 1] < #[trigger] s[i],
    ensures
        forall|i: int, j: int| 0 <= i < j < s.len() ==> #[trigger] s[i] < #[trigger] s[j],
    decreases s.len(),
{
    if s.len() > 0 {
        let t = s.drop_last();
        assert forall|i: int| 0 < i < t.len() implies t[i - 1] < #[trigger] t[i] by {
            assert(s[i] == t[i] && s[i - 1] == t[i - 1]);
        }
        lemma_u16_adjacent_sorted(t);
        assert forall|i: int, j: int| 0 <= i < j < s.len() implies #[trigger] s[i] < #[trigger] s[j] by {
            if j < s.len() - 1 {
                assert(s[i] == t[i] && s[j] == t[j]);
            } else if i < j - 1 {
                assert(s[i] == t[i] && s[j - 1] == t[j - 1]);
                assert(t[i] < t[j - 1]);
            }
        }
    }
}

/// Every managed-entity definition, in increasing class-ID order.
pub fn managed_entities() -> (definitions: Vec<ManagedEntityDefinition>)
    ensures
        definition_views(definitions@) == spec_managed_entities(),
{
    proof {
        lemma_class_ids_defined();
    }
    let ids = class_ids();
    assert(spec_managed_entities().len() == spec_class_ids().len());
    assert(definition_views(Seq::<ManagedEntityDefinition>::empty()) =~= spec_managed_entities().take(0));
    let mut definitions: Vec<ManagedEntityDefinition> = Vec::new();
    let mut i: usize = 0;
    while i < ids.len()
        invariant
            ids@ == spec_class_ids(),
            i <= ids.len(),
            definition_views(definitions@) == spec_managed_entities().take(i as int),
            definitions@.len() == i,
            spec_managed_entities().len() == spec_class_ids().len(),
            forall|k: int| 0 <= k < spec_class_ids().len() ==> (#[trigger] spec_managed_entity(spec_class_ids()[k])) is Some,
        decreases ids.len() - i,
    {
        let definition = managed_entity(ids[i]);
        assert(spec_managed_entity(spec_class_ids()[i as int]) is Some);
        let definition = definition.unwrap();
        let ghost before = definitions@;
        definitions.push(definition);
        assert(spec_managed_entities().len() == spec_class_ids().len());
        assert(spec_managed_entities()[i as int] == spec_managed_entity(spec_class_ids()[i as int]).unwrap());
        assert(definition_views(definitions@)[i as int] == definition@);
        assert forall|k: int| 0 <= k <= i implies #[trigger] definition_views(definitions@)[k] == spec_managed_entities().take(i + 1)[k] by {
            if k < i {
                assert(definition_views(before)[k] == spec_managed_entities().take(i as int)[k]);
            }
        }
        assert(definition_views(definitions@) =~= spec_managed_entities().take(i + 1));
        i += 1;
    }
    assert(spec_managed_entities().len() == spec_class_ids().len());
    assert(spec_managed_entities().take(ids.len() as int) =~= spec_managed_entities());
    definitions
}

pub fn class_ids() -> (ids: Vec<u16>)
    ensures
        ids@ == spec_class_ids(),
{
    let ids = vec![CLASS_ONU_DATA, CLASS_CARDHOLDER, CLASS_CIRCUIT_PACK, CLASS_SOFTWARE_IMAGE, CLASS_PPTP_ETHERNET_UNI, CLASS_ETHERNET_PM_HISTORY_DATA, CLASS_MAC_BRIDGE_SERVICE_PROFILE, CLASS_MAC_BRIDGE_PORT_CONFIG_DATA, CLASS_MAC_BRIDGE_PORT_PM_HISTORY_DATA, CLASS_MAC_BRIDGE_PORT_FILTER_PREASSIGN_DATA, CLASS_VLAN_TAGGING_FILTER, CLASS_ETHERNET_PM_HISTORY_DATA_2, CLASS_IEEE_8021P_MAPPER, CLASS_OLT_G, CLASS_ONU_POWER_SHEDDING, CLASS_EXTENDED_VLAN_TAGGING, CLASS_VENDOR_247, CLASS_ONU_G, CLASS_ONU2_G, CLASS_TCONT, CLASS_ANI_G, CLASS_UNI_G, CLASS_GEM_INTERWORKING_TP, CLASS_GEM_PORT_PM_HISTORY_DATA, CLASS_GEM_PORT_NETWORK_CTP, CLASS_GAL_ETHERNET_PROFILE, CLASS_THRESHOLD_DATA_1, CLASS_THRESHOLD_DATA_2, CLASS_PRIORITY_QUEUE, CLASS_TRAFFIC_SCHEDULER, CLASS_TRAFFIC_DESCRIPTOR, CLASS_MULTICAST_GEM_INTERWORKING_TP, CLASS_OMCI, CLASS_ETHERNET_PM_HISTORY_DATA_3, CLASS_MULTICAST_OPERATIONS_PROFILE, CLASS_MULTICAST_SUBSCRIBER_CONFIG, CLASS_MULTICAST_SUBSCRIBER_MONITOR, CLASS_FEC_PM_HISTORY_DATA, CLASS_VEIP, CLASS_ENHANCED_SECURITY_CONTROL, CLASS_ETHERNET_FRAME_EXTENDED_PM, CLASS_VENDOR_351, CLASS_CTC_LOID_AUTH];
    assert(ids@ =~= spec_class_ids());
    ids
}

proof fn lemma_onu_data_wire_safe()
    ensures
        attributes_wire_safe(spec_onu_data_attributes()),
{
    let s = spec_onu_data_attributes();
    assert forall|i: int| 0 <= i < s.len() implies attribute_wire_safe(#[trigger] s[i]) by {
        if i == 0 {}
    }
    lemma_adjacent_indexes_sorted(s);
}

proof fn lemma_cardholder_wire_safe()
    ensures
        attributes_wire_safe(spec_cardholder_attributes()),
{
    let s = spec_cardholder_attributes();
    assert forall|i: int| 0 <= i < s.len() implies attribute_wire_safe(#[trigger] s[i]) by {
        if i == 0 {} else if i == 1 {} else if i == 2 {} else if i == 3 {} else if i == 4 {} else if i == 5 {} else if i == 6 {} else if i == 7 {} else if i == 8 {}
    }
    assert forall|i: int| 0 < i < s.len() implies s[i - 1].index < #[trigger] s[i].index by {
        if i == 1 {} else if i == 2 {} else if i == 3 {} else if i == 4 {} else if i == 5 {} else if i == 6 {} else if i == 7 {} else if i == 8 {}
    }
    lemma_adjacent_indexes_sorted(s);
}

proof fn lemma_circuit_pack_wire_safe()
    ensures
        attributes_wire_safe(spec_circuit_pack_attributes()),
{
    let s = spec_circuit_pack_attributes();
    assert forall|i: int| 0 <= i < s.len() implies attribute_wire_safe(#[trigger] s[i]) by {
        if i == 0 {} else if i == 1 {} else if i == 2 {} else if i == 3 {} else if i == 4 {} else if i == 5 {} else if i == 6 {} else if i == 7 {} else if i == 8 {} else if i == 9 {} else if i == 10 {} else if i == 11 {} else if i == 12 {} else if i == 13 {}
    }
    assert forall|i: int| 0 < i < s.len() implies s[i - 1].index < #[trigger] s[i].index by {
        if i == 1 {} else if i == 2 {} else if i == 3 {} else if i == 4 {} else if i == 5 {} else if i == 6 {} else if i == 7 {} else if i == 8 {} else if i == 9 {} else if i == 10 {} else if i == 11 {} else if i == 12 {} else if i == 13 {}
    }
    lemma_adjacent_indexes_sorted(s);
}

proof fn lemma_software_image_wire_safe()
    ensures
        attributes_wire_safe(spec_software_image_attributes()),
{
    let s = spec_software_image_attributes();
    assert forall|i: int| 0 <= i < s.len() implies attribute_wire_safe(#[trigger] s[i]) by {
        if i == 0 {} else if i == 1 {} else if i == 2 {} else if i == 3 {}
    }
    assert forall|i: int| 0 < i < s.len() implies s[i - 1].index < #[trigger] s[i].index by {
        if i == 1 {} else if i == 2 {} else if i == 3 {}
    }
    lemma_adjacent_indexes_sorted(s);
}

proof fn lemma_ethernet_uni_wire_safe()
    ensures
        attributes_wire_safe(spec_ethernet_uni_attributes()),
{
    let s = spec_ethernet_uni_attributes();
    assert forall|i: int| 0 <= i < s.len() implies attribute_wire_safe(#[trigger] s[i]) by {
        if i == 0 {} else if i == 1 {} else if i == 2 {} else if i == 3 {} else if i == 4 {} else if i == 5 {} else if i == 6 {} else if i == 7 {} else if i == 8 {} else if i == 9 {} else if i == 10 {} else if i == 11 {} else if i == 12 {} else if i == 13 {} else if i == 14 {}
    }
    assert forall|i: int| 0 < i < s.len() implies s[i - 1].index < #[trigger] s[i].index by {
        if i == 1 {} else if i == 2 {} else if i == 3 {} else if i == 4 {} else if i == 5 {} else if i == 6 {} else if i == 7 {} else if i == 8 {} else if i == 9 {} else if i == 10 {} else if i == 11 {} else if i == 12 {} else if i == 13 {} else if i == 14 {}
    }
    lemma_adjacent_indexes_sorted(s);
}

proof fn lemma_ethernet_pm_wire_safe()
    ensures
        attributes_wire_safe(spec_ethernet_pm_attributes()),
{
    let s = spec_ethernet_pm_attributes();
    assert forall|i: int| 0 <= i < s.len() implies attribute_wire_safe(#[trigger] s[i]) by {
        if i == 0 {} else if i == 1 {} else if i == 2 {} else if i == 3 {} else if i == 4 {} else if i == 5 {} else if i == 6 {} else if i == 7 {} else if i == 8 {} else if i == 9 {} else if i == 10 {} else if i == 11 {} else if i == 12 {} else if i == 13 {} else if i == 14 {} else if i == 15 {}
    }
    assert forall|i: int| 0 < i < s.len() implies s[i - 1].index < #[trigger] s[i].index by {
        if i == 1 {} else if i == 2 {} else if i == 3 {} else if i == 4 {} else if i == 5 {} else if i == 6 {} else if i == 7 {} else if i == 8 {} else if i == 9 {} else if i == 10 {} else if i == 11 {} else if i == 12 {} else if i == 13 {} else if i == 14 {} else if i == 15 {}
    }
    lemma_adjacent_indexes_sorted(s);
}

proof fn lemma_mac_bridge_service_wire_safe()
    ensures
        attributes_wire_safe(spec_mac_bridge_service_attributes()),
{
    let s = spec_mac_bridge_service_attributes();
    assert forall|i: int| 0 <= i < s.len() implies attribute_wire_safe(#[trigger] s[i]) by {
        if i == 0 {} else if i == 1 {} else if i == 2 {} else if i == 3 {} else if i == 4 {} else if i == 5 {} else if i == 6 {} else if i == 7 {} else if i == 8 {} else if i == 9 {}
    }
    assert forall|i: int| 0 < i < s.len() implies s[i - 1].index < #[trigger] s[i].index by {
        if i == 1 {} else if i == 2 {} else if i == 3 {} else if i == 4 {} else if i == 5 {} else if i == 6 {} else if i == 7 {} else if i == 8 {} else if i == 9 {}
    }
    lemma_adjacent_indexes_sorted(s);
}

proof fn lemma_mac_bridge_port_wire_safe()
    ensures
        attributes_wire_safe(spec_mac_bridge_port_attributes()),
{
    let s = spec_mac_bridge_port_attributes();
    assert forall|i: int| 0 <= i < s.len() implies attribute_wire_safe(#[trigger] s[i]) by {
        if i == 0 {} else if i == 1 {} else if i == 2 {} else if i == 3 {} else if i == 4 {} else if i == 5 {} else if i == 6 {} else if i == 7 {} else if i == 8 {} else if i == 9 {} else if i == 10 {} else if i == 11 {} else if i == 12 {}
    }
    assert forall|i: int| 0 < i < s.len() implies s[i - 1].index < #[trigger] s[i].index by {
        if i == 1 {} else if i == 2 {} else if i == 3 {} else if i == 4 {} else if i == 5 {} else if i == 6 {} else if i == 7 {} else if i == 8 {} else if i == 9 {} else if i == 10 {} else if i == 11 {} else if i == 12 {}
    }
    lemma_adjacent_indexes_sorted(s);
}

proof fn lemma_mac_bridge_port_pm_wire_safe()
    ensures
        attributes_wire_safe(spec_mac_bridge_port_pm_attributes()),
{
    let s = spec_mac_bridge_port_pm_attributes();
    assert forall|i: int| 0 <= i < s.len() implies attribute_wire_safe(#[trigger] s[i]) by {
        if i == 0 {} else if i == 1 {} else if i == 2 {} else if i == 3 {} else if i == 4 {} else if i == 5 {} else if i == 6 {}
    }
    assert forall|i: int| 0 < i < s.len() implies s[i - 1].index < #[trigger] s[i].index by {
        if i == 1 {} else if i == 2 {} else if i == 3 {} else if i == 4 {} else if i == 5 {} else if i == 6 {}
    }
    lemma_adjacent_indexes_sorted(s);
}

proof fn lemma_filter_preassign_wire_safe()
    ensures
        attributes_wire_safe(spec_filter_preassign_attributes()),
{
    let s = spec_filter_preassign_attributes();
    assert forall|i: int| 0 <= i < s.len() implies attribute_wire_safe(#[trigger] s[i]) by {
        if i == 0 {} else if i == 1 {} else if i == 2 {} else if i == 3 {} else if i == 4 {} else if i == 5 {} else if i == 6 {} else if i == 7 {} else if i == 8 {} else if i == 9 {}
    }
    assert forall|i: int| 0 < i < s.len() implies s[i - 1].index < #[trigger] s[i].index by {
        if i == 1 {} else if i == 2 {} else if i == 3 {} else if i == 4 {} else if i == 5 {} else if i == 6 {} else if i == 7 {} else if i == 8 {} else if i == 9 {}
    }
    lemma_adjacent_indexes_sorted(s);
}

proof fn lemma_vlan_filter_wire_safe()
    ensures
        attributes_wire_safe(spec_vlan_filter_attributes()),
{
    let s = spec_vlan_filter_attributes();
    assert forall|i: int| 0 <= i < s.len() implies attribute_wire_safe(#[trigger] s[i]) by {
        if i == 0 {} else if i == 1 {} else if i == 2 {}
    }
    assert forall|i: int| 0 < i < s.len() implies s[i - 1].index < #[trigger] s[i].index by {
        if i == 1 {} else if i == 2 {}
    }
    lemma_adjacent_indexes_sorted(s);
}

proof fn lemma_ethernet_pm_2_wire_safe()
    ensures
        attributes_wire_safe(spec_ethernet_pm_2_attributes()),
{
    let s = spec_ethernet_pm_2_attributes();
    assert forall|i: int| 0 <= i < s.len() implies attribute_wire_safe(#[trigger] s[i]) by {
        if i == 0 {} else if i == 1 {} else if i == 2 {}
    }
    assert forall|i: int| 0 < i < s.len() implies s[i - 1].index < #[trigger] s[i].index by {
        if i == 1 {} else if i == 2 {}
    }
    lemma_adjacent_indexes_sorted(s);
}

proof fn lemma_ieee_8021p_mapper_wire_safe()
    ensures
        attributes_wire_safe(spec_ieee_8021p_mapper_attributes()),
{
    let s = spec_ieee_8021p_mapper_attributes();
    assert forall|i: int| 0 <= i < s.len() implies attribute_wire_safe(#[trigger] s[i]) by {
        if i == 0 {} else if i == 1 {} else if i == 2 {} else if i == 3 {} else if i == 4 {} else if i == 5 {} else if i == 6 {} else if i == 7 {} else if i == 8 {} else if i == 9 {} else if i == 10 {} else if i == 11 {} else if i == 12 {}
    }
    assert forall|i: int| 0 < i < s.len() implies s[i - 1].index < #[trigger] s[i].index by {
        if i == 1 {} else if i == 2 {} else if i == 3 {} else if i == 4 {} else if i == 5 {} else if i == 6 {} else if i == 7 {} else if i == 8 {} else if i == 9 {} else if i == 10 {} else if i == 11 {} else if i == 12 {}
    }
    lemma_adjacent_indexes_sorted(s);
}

proof fn lemma_olt_g_wire_safe()
    ensures
        attributes_wire_safe(spec_olt_g_attributes()),
{
    let s = spec_olt_g_attributes();
    assert forall|i: int| 0 <= i < s.len() implies attribute_wire_safe(#[trigger] s[i]) by {
        if i == 0 {} else if i == 1 {} else if i == 2 {} else if i == 3 {}
    }
    assert forall|i: int| 0 < i < s.len() implies s[i - 1].index < #[trigger] s[i].index by {
        if i == 1 {} else if i == 2 {} else if i == 3 {}
    }
    lemma_adjacent_indexes_sorted(s);
}

proof fn lemma_power_shedding_wire_safe()
    ensures
        attributes_wire_safe(spec_power_shedding_attributes()),
{
    let s = spec_power_shedding_attributes();
    assert forall|i: int| 0 <= i < s.len() implies attribute_wire_safe(#[trigger] s[i]) by {
        if i == 0 {} else if i == 1 {} else if i == 2 {} else if i == 3 {} else if i == 4 {} else if i == 5 {} else if i == 6 {} else if i == 7 {} else if i == 8 {} else if i == 9 {} else if i == 10 {}
    }
    assert forall|i: int| 0 < i < s.len() implies s[i - 1].index < #[trigger] s[i].index by {
        if i == 1 {} else if i == 2 {} else if i == 3 {} else if i == 4 {} else if i == 5 {} else if i == 6 {} else if i == 7 {} else if i == 8 {} else if i == 9 {} else if i == 10 {}
    }
    lemma_adjacent_indexes_sorted(s);
}

proof fn lemma_extended_vlan_wire_safe()
    ensures
        attributes_wire_safe(spec_extended_vlan_attributes()),
{
    let s = spec_extended_vlan_attributes();
    assert forall|i: int| 0 <= i < s.len() implies attribute_wire_safe(#[trigger] s[i]) by {
        if i == 0 {} else if i == 1 {} else if i == 2 {} else if i == 3 {} else if i == 4 {} else if i == 5 {} else if i == 6 {} else if i == 7 {}
    }
    assert forall|i: int| 0 < i < s.len() implies s[i - 1].index < #[trigger] s[i].index by {
        if i == 1 {} else if i == 2 {} else if i == 3 {} else if i == 4 {} else if i == 5 {} else if i == 6 {} else if i == 7 {}
    }
    lemma_adjacent_indexes_sorted(s);
}

proof fn lemma_onu_g_wire_safe()
    ensures
        attributes_wire_safe(spec_onu_g_attributes()),
{
    let s = spec_onu_g_attributes();
    assert forall|i: int| 0 <= i < s.len() implies attribute_wire_safe(#[trigger] s[i]) by {
        if i == 0 {} else if i == 1 {} else if i == 2 {} else if i == 3 {} else if i == 4 {} else if i == 5 {} else if i == 6 {} else if i == 7 {} else if i == 8 {} else if i == 9 {} else if i == 10 {} else if i == 11 {} else if i == 12 {}
    }
    assert forall|i: int| 0 < i < s.len() implies s[i - 1].index < #[trigger] s[i].index by {
        if i == 1 {} else if i == 2 {} else if i == 3 {} else if i == 4 {} else if i == 5 {} else if i == 6 {} else if i == 7 {} else if i == 8 {} else if i == 9 {} else if i == 10 {} else if i == 11 {} else if i == 12 {}
    }
    lemma_adjacent_indexes_sorted(s);
}

proof fn lemma_onu2_g_wire_safe()
    ensures
        attributes_wire_safe(spec_onu2_g_attributes()),
{
    let s = spec_onu2_g_attributes();
    assert forall|i: int| 0 <= i < s.len() implies attribute_wire_safe(#[trigger] s[i]) by {
        if i == 0 {} else if i == 1 {} else if i == 2 {} else if i == 3 {} else if i == 4 {} else if i == 5 {} else if i == 6 {} else if i == 7 {} else if i == 8 {} else if i == 9 {} else if i == 10 {} else if i == 11 {} else if i == 12 {} else if i == 13 {}
    }
    assert forall|i: int| 0 < i < s.len() implies s[i - 1].index < #[trigger] s[i].index by {
        if i == 1 {} else if i == 2 {} else if i == 3 {} else if i == 4 {} else if i == 5 {} else if i == 6 {} else if i == 7 {} else if i == 8 {} else if i == 9 {} else if i == 10 {} else if i == 11 {} else if i == 12 {} else if i == 13 {}
    }
    lemma_adjacent_indexes_sorted(s);
}

proof fn lemma_tcont_wire_safe()
    ensures
        attributes_wire_safe(spec_tcont_attributes()),
{
    let s = spec_tcont_attributes();
    assert forall|i: int| 0 <= i < s.len() implies attribute_wire_safe(#[trigger] s[i]) by {
        if i == 0 {} else if i == 1 {} else if i == 2 {}
    }
    assert forall|i: int| 0 < i < s.len() implies s[i - 1].index < #[trigger] s[i].index by {
        if i == 1 {} else if i == 2 {}
    }
    lemma_adjacent_indexes_sorted(s);
}

proof fn lemma_ani_g_wire_safe()
    ensures
        attributes_wire_safe(spec_ani_g_attributes()),
{
    let s = spec_ani_g_attributes();
    assert forall|i: int| 0 <= i < s.len() implies attribute_wire_safe(#[trigger] s[i]) by {
        if i == 0 {} else if i == 1 {} else if i == 2 {} else if i == 3 {} else if i == 4 {} else if i == 5 {} else if i == 6 {} else if i == 7 {} else if i == 8 {} else if i == 9 {} else if i == 10 {} else if i == 11 {} else if i == 12 {} else if i == 13 {} else if i == 14 {} else if i == 15 {}
    }
    assert forall|i: int| 0 < i < s.len() implies s[i - 1].index < #[trigger] s[i].index by {
        if i == 1 {} else if i == 2 {} else if i == 3 {} else if i == 4 {} else if i == 5 {} else if i == 6 {} else if i == 7 {} else if i == 8 {} else if i == 9 {} else if i == 10 {} else if i == 11 {} else if i == 12 {} else if i == 13 {} else if i == 14 {} else if i == 15 {}
    }
    lemma_adjacent_indexes_sorted(s);
}

proof fn lemma_uni_g_wire_safe()
    ensures
        attributes_wire_safe(spec_uni_g_attributes()),
{
    let s = spec_uni_g_attributes();
    assert forall|i: int| 0 <= i < s.len() implies attribute_wire_safe(#[trigger] s[i]) by {
        if i == 0 {} else if i == 1 {} else if i == 2 {} else if i == 3 {} else if i == 4 {}
    }
    assert forall|i: int| 0 < i < s.len() implies s[i - 1].index < #[trigger] s[i].index by {
        if i == 1 {} else if i == 2 {} else if i == 3 {} else if i == 4 {}
    }
    lemma_adjacent_indexes_sorted(s);
}

proof fn lemma_gem_interworking_wire_safe()
    ensures
        attributes_wire_safe(spec_gem_interworking_attributes()),
{
    let s = spec_gem_interworking_attributes();
    assert forall|i: int| 0 <= i < s.len() implies attribute_wire_safe(#[trigger] s[i]) by {
        if i == 0 {} else if i == 1 {} else if i == 2 {} else if i == 3 {} else if i == 4 {} else if i == 5 {} else if i == 6 {} else if i == 7 {}
    }
    assert forall|i: int| 0 < i < s.len() implies s[i - 1].index < #[trigger] s[i].index by {
        if i == 1 {} else if i == 2 {} else if i == 3 {} else if i == 4 {} else if i == 5 {} else if i == 6 {} else if i == 7 {}
    }
    lemma_adjacent_indexes_sorted(s);
}

proof fn lemma_gem_port_pm_wire_safe()
    ensures
        attributes_wire_safe(spec_gem_port_pm_attributes()),
{
    let s = spec_gem_port_pm_attributes();
    assert forall|i: int| 0 <= i < s.len() implies attribute_wire_safe(#[trigger] s[i]) by {
        if i == 0 {} else if i == 1 {} else if i == 2 {} else if i == 3 {} else if i == 4 {} else if i == 5 {} else if i == 6 {} else if i == 7 {} else if i == 8 {}
    }
    assert forall|i: int| 0 < i < s.len() implies s[i - 1].index < #[trigger] s[i].index by {
        if i == 1 {} else if i == 2 {} else if i == 3 {} else if i == 4 {} else if i == 5 {} else if i == 6 {} else if i == 7 {} else if i == 8 {}
    }
    lemma_adjacent_indexes_sorted(s);
}

proof fn lemma_gem_port_wire_safe()
    ensures
        attributes_wire_safe(spec_gem_port_attributes()),
{
    let s = spec_gem_port_attributes();
    assert forall|i: int| 0 <= i < s.len() implies attribute_wire_safe(#[trigger] s[i]) by {
        if i == 0 {} else if i == 1 {} else if i == 2 {} else if i == 3 {} else if i == 4 {} else if i == 5 {} else if i == 6 {} else if i == 7 {} else if i == 8 {} else if i == 9 {}
    }
    assert forall|i: int| 0 < i < s.len() implies s[i - 1].index < #[trigger] s[i].index by {
        if i == 1 {} else if i == 2 {} else if i == 3 {} else if i == 4 {} else if i == 5 {} else if i == 6 {} else if i == 7 {} else if i == 8 {} else if i == 9 {}
    }
    lemma_adjacent_indexes_sorted(s);
}

proof fn lemma_gal_profile_wire_safe()
    ensures
        attributes_wire_safe(spec_gal_profile_attributes()),
{
    let s = spec_gal_profile_attributes();
    assert forall|i: int| 0 <= i < s.len() implies attribute_wire_safe(#[trigger] s[i]) by {
        if i == 0 {}
    }
    lemma_adjacent_indexes_sorted(s);
}

proof fn lemma_threshold_wire_safe()
    ensures
        attributes_wire_safe(spec_threshold_attributes()),
{
    let s = spec_threshold_attributes();
    assert forall|i: int| 0 <= i < s.len() implies attribute_wire_safe(#[trigger] s[i]) by {
        if i == 0 {} else if i == 1 {} else if i == 2 {} else if i == 3 {} else if i == 4 {} else if i == 5 {} else if i == 6 {}
    }
    assert forall|i: int| 0 < i < s.len() implies s[i - 1].index < #[trigger] s[i].index by {
        if i == 1 {} else if i == 2 {} else if i == 3 {} else if i == 4 {} else if i == 5 {} else if i == 6 {}
    }
    lemma_adjacent_indexes_sorted(s);
}

proof fn lemma_priority_queue_wire_safe()
    ensures
        attributes_wire_safe(spec_priority_queue_attributes()),
{
    let s = spec_priority_queue_attributes();
    assert forall|i: int| 0 <= i < s.len() implies attribute_wire_safe(#[trigger] s[i]) by {
        if i == 0 {} else if i == 1 {} else if i == 2 {} else if i == 3 {} else if i == 4 {} else if i == 5 {} else if i == 6 {} else if i == 7 {} else if i == 8 {} else if i == 9 {}
    }
    assert forall|i: int| 0 < i < s.len() implies s[i - 1].index < #[trigger] s[i].index by {
        if i == 1 {} else if i == 2 {} else if i == 3 {} else if i == 4 {} else if i == 5 {} else if i == 6 {} else if i == 7 {} else if i == 8 {} else if i == 9 {}
    }
    lemma_adjacent_indexes_sorted(s);
}

proof fn lemma_traffic_scheduler_wire_safe()
    ensures
        attributes_wire_safe(spec_traffic_scheduler_attributes()),
{
    let s = spec_traffic_scheduler_attributes();
    assert forall|i: int| 0 <= i < s.len() implies attribute_wire_safe(#[trigger] s[i]) by {
        if i == 0 {} else if i == 1 {} else if i == 2 {} else if i == 3 {}
    }
    assert forall|i: int| 0 < i < s.len() implies s[i - 1].index < #[trigger] s[i].index by {
        if i == 1 {} else if i == 2 {} else if i == 3 {}
    }
    lemma_adjacent_indexes_sorted(s);
}

proof fn lemma_traffic_descriptor_wire_safe()
    ensures
        attributes_wire_safe(spec_traffic_descriptor_attributes()),
{
    let s = spec_traffic_descriptor_attributes();
    assert forall|i: int| 0 <= i < s.len() implies attribute_wire_safe(#[trigger] s[i]) by {
        if i == 0 {} else if i == 1 {} else if i == 2 {} else if i == 3 {} else if i == 4 {} else if i == 5 {} else if i == 6 {} else if i == 7 {}
    }
    assert forall|i: int| 0 < i < s.len() implies s[i - 1].index < #[trigger] s[i].index by {
        if i == 1 {} else if i == 2 {} else if i == 3 {} else if i == 4 {} else if i == 5 {} else if i == 6 {} else if i == 7 {}
    }
    lemma_adjacent_indexes_sorted(s);
}

proof fn lemma_multicast_gem_wire_safe()
    ensures
        attributes_wire_safe(spec_multicast_gem_attributes()),
{
    let s = spec_multicast_gem_attributes();
    assert forall|i: int| 0 <= i < s.len() implies attribute_wire_safe(#[trigger] s[i]) by {
        if i == 0 {} else if i == 1 {} else if i == 2 {} else if i == 3 {} else if i == 4 {} else if i == 5 {} else if i == 6 {} else if i == 7 {} else if i == 8 {}
    }
    assert forall|i: int| 0 < i < s.len() implies s[i - 1].index < #[trigger] s[i].index by {
        if i == 1 {} else if i == 2 {} else if i == 3 {} else if i == 4 {} else if i == 5 {} else if i == 6 {} else if i == 7 {} else if i == 8 {}
    }
    lemma_adjacent_indexes_sorted(s);
}

proof fn lemma_omci_wire_safe()
    ensures
        attributes_wire_safe(spec_omci_attributes()),
{
    let s = spec_omci_attributes();
    assert forall|i: int| 0 <= i < s.len() implies attribute_wire_safe(#[trigger] s[i]) by {
        if i == 0 {} else if i == 1 {}
    }
    assert forall|i: int| 0 < i < s.len() implies s[i - 1].index < #[trigger] s[i].index by {
        if i == 1 {}
    }
    lemma_adjacent_indexes_sorted(s);
}

proof fn lemma_multicast_operations_wire_safe()
    ensures
        attributes_wire_safe(spec_multicast_operations_attributes()),
{
    let s = spec_multicast_operations_attributes();
    assert forall|i: int| 0 <= i < s.len() implies attribute_wire_safe(#[trigger] s[i]) by {
        if i == 0 {} else if i == 1 {} else if i == 2 {} else if i == 3 {} else if i == 4 {} else if i == 5 {} else if i == 6 {} else if i == 7 {} else if i == 8 {} else if i == 9 {} else if i == 10 {} else if i == 11 {} else if i == 12 {} else if i == 13 {} else if i == 14 {} else if i == 15 {}
    }
    assert forall|i: int| 0 < i < s.len() implies s[i - 1].index < #[trigger] s[i].index by {
        if i == 1 {} else if i == 2 {} else if i == 3 {} else if i == 4 {} else if i == 5 {} else if i == 6 {} else if i == 7 {} else if i == 8 {} else if i == 9 {} else if i == 10 {} else if i == 11 {} else if i == 12 {} else if i == 13 {} else if i == 14 {} else if i == 15 {}
    }
    lemma_adjacent_indexes_sorted(s);
}

proof fn lemma_multicast_subscriber_wire_safe()
    ensures
        attributes_wire_safe(spec_multicast_subscriber_attributes()),
{
    let s = spec_multicast_subscriber_attributes();
    assert forall|i: int| 0 <= i < s.len() implies attribute_wire_safe(#[trigger] s[i]) by {
        if i == 0 {} else if i == 1 {} else if i == 2 {} else if i == 3 {} else if i == 4 {}
    }
    assert forall|i: int| 0 < i < s.len() implies s[i - 1].index < #[trigger] s[i].index by {
        if i == 1 {} else if i == 2 {} else if i == 3 {} else if i == 4 {}
    }
    lemma_adjacent_indexes_sorted(s);
}

proof fn lemma_multicast_monitor_wire_safe()
    ensures
        attributes_wire_safe(spec_multicast_monitor_attributes()),
{
    let s = spec_multicast_monitor_attributes();
    assert forall|i: int| 0 <= i < s.len() implies attribute_wire_safe(#[trigger] s[i]) by {
        if i == 0 {} else if i == 1 {} else if i == 2 {} else if i == 3 {} else if i == 4 {} else if i == 5 {}
    }
    assert forall|i: int| 0 < i < s.len() implies s[i - 1].index < #[trigger] s[i].index by {
        if i == 1 {} else if i == 2 {} else if i == 3 {} else if i == 4 {} else if i == 5 {}
    }
    lemma_adjacent_indexes_sorted(s);
}

proof fn lemma_fec_pm_wire_safe()
    ensures
        attributes_wire_safe(spec_fec_pm_attributes()),
{
    let s = spec_fec_pm_attributes();
    assert forall|i: int| 0 <= i < s.len() implies attribute_wire_safe(#[trigger] s[i]) by {
        if i == 0 {} else if i == 1 {} else if i == 2 {} else if i == 3 {} else if i == 4 {} else if i == 5 {} else if i == 6 {}
    }
    assert forall|i: int| 0 < i < s.len() implies s[i - 1].index < #[trigger] s[i].index by {
        if i == 1 {} else if i == 2 {} else if i == 3 {} else if i == 4 {} else if i == 5 {} else if i == 6 {}
    }
    lemma_adjacent_indexes_sorted(s);
}

proof fn lemma_veip_wire_safe()
    ensures
        attributes_wire_safe(spec_veip_attributes()),
{
    let s = spec_veip_attributes();
    assert forall|i: int| 0 <= i < s.len() implies attribute_wire_safe(#[trigger] s[i]) by {
        if i == 0 {} else if i == 1 {} else if i == 2 {} else if i == 3 {} else if i == 4 {}
    }
    assert forall|i: int| 0 < i < s.len() implies s[i - 1].index < #[trigger] s[i].index by {
        if i == 1 {} else if i == 2 {} else if i == 3 {} else if i == 4 {}
    }
    lemma_adjacent_indexes_sorted(s);
}

proof fn lemma_enhanced_security_wire_safe()
    ensures
        attributes_wire_safe(spec_enhanced_security_attributes()),
{
    let s = spec_enhanced_security_attributes();
    assert forall|i: int| 0 <= i < s.len() implies attribute_wire_safe(#[trigger] s[i]) by {
        if i == 0 {} else if i == 1 {} else if i == 2 {} else if i == 3 {} else if i == 4 {} else if i == 5 {} else if i == 6 {} else if i == 7 {} else if i == 8 {} else if i == 9 {} else if i == 10 {} else if i == 11 {}
    }
    assert forall|i: int| 0 < i < s.len() implies s[i - 1].index < #[trigger] s[i].index by {
        if i == 1 {} else if i == 2 {} else if i == 3 {} else if i == 4 {} else if i == 5 {} else if i == 6 {} else if i == 7 {} else if i == 8 {} else if i == 9 {} else if i == 10 {} else if i == 11 {}
    }
    lemma_adjacent_indexes_sorted(s);
}

proof fn lemma_ethernet_frame_extended_pm_wire_safe()
    ensures
        attributes_wire_safe(spec_ethernet_frame_extended_pm_attributes()),
{
    let s = spec_ethernet_frame_extended_pm_attributes();
    assert forall|i: int| 0 <= i < s.len() implies attribute_wire_safe(#[trigger] s[i]) by {
        if i == 0 {} else if i == 1 {} else if i == 2 {} else if i == 3 {} else if i == 4 {} else if i == 5 {} else if i == 6 {} else if i == 7 {} else if i == 8 {} else if i == 9 {} else if i == 10 {} else if i == 11 {} else if i == 12 {} else if i == 13 {} else if i == 14 {} else if i == 15 {}
    }
    assert forall|i: int| 0 < i < s.len() implies s[i - 1].index < #[trigger] s[i].index by {
        if i == 1 {} else if i == 2 {} else if i == 3 {} else if i == 4 {} else if i == 5 {} else if i == 6 {} else if i == 7 {} else if i == 8 {} else if i == 9 {} else if i == 10 {} else if i == 11 {} else if i == 12 {} else if i == 13 {} else if i == 14 {} else if i == 15 {}
    }
    lemma_adjacent_indexes_sorted(s);
}

proof fn lemma_vendor_351_wire_safe()
    ensures
        attributes_wire_safe(spec_vendor_351_attributes()),
{
    let s = spec_vendor_351_attributes();
    assert forall|i: int| 0 <= i < s.len() implies attribute_wire_safe(#[trigger] s[i]) by {
        if i == 0 {} else if i == 1 {}
    }
    assert forall|i: int| 0 < i < s.len() implies s[i - 1].index < #[trigger] s[i].index by {
        if i == 1 {}
    }
    lemma_adjacent_indexes_sorted(s);
}

proof fn lemma_ctc_loid_wire_safe()
    ensures
        attributes_wire_safe(spec_ctc_loid_attributes()),
{
    let s = spec_ctc_loid_attributes();
    assert forall|i: int| 0 <= i < s.len() implies attribute_wire_safe(#[trigger] s[i]) by {
        if i == 0 {} else if i == 1 {} else if i == 2 {} else if i == 3 {}
    }
    assert forall|i: int| 0 < i < s.len() implies s[i - 1].index < #[trigger] s[i].index by {
        if i == 1 {} else if i == 2 {} else if i == 3 {}
    }
    lemma_adjacent_indexes_sorted(s);
}

/// Every defined class lists its attributes with wire-valid indexes in increasing order,
/// scalar lengths above zero with defaults of that length, and table rows above zero
/// (at least eight bytes where the table is writable) with no default.
pub proof fn lemma_attribute_definitions_are_wire_safe(class_id: u16)
    ensures
        spec_managed_entity(class_id) matches Some(definition) ==> attributes_wire_safe(definition.attributes),
{
    reveal(spec_managed_entity);
    lemma_onu_data_wire_safe();
    lemma_cardholder_wire_safe();
    lemma_circuit_pack_wire_safe();
    lemma_software_image_wire_safe();
    lemma_ethernet_uni_wire_safe();
    lemma_ethernet_pm_wire_safe();
    lemma_mac_bridge_service_wire_safe();
    lemma_mac_bridge_port_wire_safe();
    lemma_mac_bridge_port_pm_wire_safe();
    lemma_filter_preassign_wire_safe();
    lemma_vlan_filter_wire_safe();
    lemma_ethernet_pm_2_wire_safe();
    lemma_ieee_8021p_mapper_wire_safe();
    lemma_olt_g_wire_safe();
    lemma_power_shedding_wire_safe();
    lemma_extended_vlan_wire_safe();
    lemma_onu_g_wire_safe();
    lemma_onu2_g_wire_safe();
    lemma_tcont_wire_safe();
    lemma_ani_g_wire_safe();
    lemma_uni_g_wire_safe();
    lemma_gem_interworking_wire_safe();
    lemma_gem_port_pm_wire_safe();
    lemma_gem_port_wire_safe();
    lemma_gal_profile_wire_safe();
    lemma_threshold_wire_safe();
    lemma_priority_queue_wire_safe();
    lemma_traffic_scheduler_wire_safe();
    lemma_traffic_descriptor_wire_safe();
    lemma_multicast_gem_wire_safe();
    lemma_omci_wire_safe();
    lemma_multicast_operations_wire_safe();
    lemma_multicast_subscriber_wire_safe();
    lemma_multicast_monitor_wire_safe();
    lemma_fec_pm_wire_safe();
    lemma_veip_wire_safe();
    lemma_enhanced_security_wire_safe();
    lemma_ethernet_frame_extended_pm_wire_safe();
    lemma_vendor_351_wire_safe();
    lemma_ctc_loid_wire_safe();
    assert(attributes_wire_safe(Seq::<AttributeDefinitionView>::empty()));
}

proof fn lemma_class_ids_adjacent()
    ensures
        forall|i: int| 0 < i < spec_class_ids().len() ==> spec_class_ids()[i - 1] < #[trigger] spec_class_ids()[i],
        spec_class_ids().len() == 43,
{
    let s = spec_class_ids();
    assert forall|i: int| 0 < i < s.len() implies s[i - 1] < #[trigger] s[i] by {
        if i == 1 {} else if i == 2 {} else if i == 3 {} else if i == 4 {} else if i == 5 {} else if i == 6 {} else if i == 7 {} else if i == 8 {} else if i == 9 {} else if i == 10 {} else if i == 11 {} else if i == 12 {} else if i == 13 {} else if i == 14 {} else if i == 15 {} else if i == 16 {} else if i == 17 {} else if i == 18 {} else if i == 19 {} else if i == 20 {} else if i == 21 {} else if i == 22 {} else if i == 23 {} else if i == 24 {} else if i == 25 {} else if i == 26 {} else if i == 27 {} else if i == 28 {} else if i == 29 {} else if i == 30 {} else if i == 31 {} else if i == 32 {} else if i == 33 {} else if i == 34 {} else if i == 35 {} else if i == 36 {} else if i == 37 {} else if i == 38 {} else if i == 39 {} else if i == 40 {} else if i == 41 {} else if i == 42 {}
    }
}

proof fn lemma_class_ids_defined()
    ensures
        forall|i: int| 0 <= i < spec_class_ids().len() ==> ((#[trigger] spec_managed_entity(spec_class_ids()[i])) matches Some(d) && d.class_id == spec_class_ids()[i]),
        forall|c: u16| (#[trigger] spec_managed_entity(c)) is Some ==> spec_class_ids().contains(c),
{
    reveal(spec_managed_entity);
    let s = spec_class_ids();
    assert forall|i: int| 0 <= i < s.len() implies ((#[trigger] spec_managed_entity(s[i])) matches Some(d) && d.class_id == s[i]) by {
        if i == 0 {} else if i == 1 {} else if i == 2 {} else if i == 3 {} else if i == 4 {} else if i == 5 {} else if i == 6 {} else if i == 7 {} else if i == 8 {} else if i == 9 {} else if i == 10 {} else if i == 11 {} else if i == 12 {} else if i == 13 {} else if i == 14 {} else if i == 15 {} else if i == 16 {} else if i == 17 {} else if i == 18 {} else if i == 19 {} else if i == 20 {} else if i == 21 {} else if i == 22 {} else if i == 23 {} else if i == 24 {} else if i == 25 {} else if i == 26 {} else if i == 27 {} else if i == 28 {} else if i == 29 {} else if i == 30 {} else if i == 31 {} else if i == 32 {} else if i == 33 {} else if i == 34 {} else if i == 35 {} else if i == 36 {} else if i == 37 {} else if i == 38 {} else if i == 39 {} else if i == 40 {} else if i == 41 {} else if i == 42 {}
    }
    assert forall|c: u16| (#[trigger] spec_managed_entity(c)) is Some implies s.contains(c) by {
        if c == CLASS_ONU_DATA { assert(s[0] == c); } else if c == CLASS_CARDHOLDER { assert(s[1] == c); } else if c == CLASS_CIRCUIT_PACK { assert(s[2] == c); } else if c == CLASS_SOFTWARE_IMAGE { assert(s[3] == c); } else if c == CLASS_PPTP_ETHERNET_UNI { assert(s[4] == c); } else if c == CLASS_ETHERNET_PM_HISTORY_DATA { assert(s[5] == c); } else if c == CLASS_MAC_BRIDGE_SERVICE_PROFILE { assert(s[6] == c); } else if c == CLASS_MAC_BRIDGE_PORT_CONFIG_DATA { assert(s[7] == c); } else if c == CLASS_MAC_BRIDGE_PORT_PM_HISTORY_DATA { assert(s[8] == c); } else if c == CLASS_MAC_BRIDGE_PORT_FILTER_PREASSIGN_DATA { assert(s[9] == c); } else if c == CLASS_VLAN_TAGGING_FILTER { assert(s[10] == c); } else if c == CLASS_ETHERNET_PM_HISTORY_DATA_2 { assert(s[11] == c); } else if c == CLASS_IEEE_8021P_MAPPER { assert(s[12] == c); } else if c == CLASS_OLT_G { assert(s[13] == c); } else if c == CLASS_ONU_POWER_SHEDDING { assert(s[14] == c); } else if c == CLASS_EXTENDED_VLAN_TAGGING { assert(s[15] == c); } else if c == CLASS_VENDOR_247 { assert(s[16] == c); } else if c == CLASS_ONU_G { assert(s[17] == c); } else if c == CLASS_ONU2_G { assert(s[18] == c); } else if c == CLASS_TCONT { assert(s[19] == c); } else if c == CLASS_ANI_G { assert(s[20] == c); } else if c == CLASS_UNI_G { assert(s[21] == c); } else if c == CLASS_GEM_INTERWORKING_TP { assert(s[22] == c); } else if c == CLASS_GEM_PORT_PM_HISTORY_DATA { assert(s[23] == c); } else if c == CLASS_GEM_PORT_NETWORK_CTP { assert(s[24] == c); } else if c == CLASS_GAL_ETHERNET_PROFILE { assert(s[25] == c); } else if c == CLASS_THRESHOLD_DATA_1 { assert(s[26] == c); } else if c == CLASS_THRESHOLD_DATA_2 { assert(s[27] == c); } else if c == CLASS_PRIORITY_QUEUE { assert(s[28] == c); } else if c == CLASS_TRAFFIC_SCHEDULER { assert(s[29] == c); } else if c == CLASS_TRAFFIC_DESCRIPTOR { assert(s[30] == c); } else if c == CLASS_MULTICAST_GEM_INTERWORKING_TP { assert(s[31] == c); } else if c == CLASS_OMCI { assert(s[32] == c); } else if c == CLASS_ETHERNET_PM_HISTORY_DATA_3 { assert(s[33] == c); } else if c == CLASS_MULTICAST_OPERATIONS_PROFILE { assert(s[34] == c); } else if c == CLASS_MULTICAST_SUBSCRIBER_CONFIG { assert(s[35] == c); } else if c == CLASS_MULTICAST_SUBSCRIBER_MONITOR { assert(s[36] == c); } else if c == CLASS_FEC_PM_HISTORY_DATA { assert(s[37] == c); } else if c == CLASS_VEIP { assert(s[38] == c); } else if c == CLASS_ENHANCED_SECURITY_CONTROL { assert(s[39] == c); } else if c == CLASS_ETHERNET_FRAME_EXTENDED_PM { assert(s[40] == c); } else if c == CLASS_VENDOR_351 { assert(s[41] == c); } else if c == CLASS_CTC_LOID_AUTH { assert(s[42] == c); }
    }
}


/// The ONU data sync counter and the enhanced-security state attributes are scalars.
pub proof fn lemma_state_attributes_are_scalars()
    ensures
        spec_managed_entity(CLASS_ONU_DATA) matches Some(d) && forall|i: int|
            0 <= i < d.attributes.len() && (#[trigger] d.attributes[i]).index == 1 ==> d.attributes[i].kind is Scalar,
        spec_managed_entity(CLASS_ENHANCED_SECURITY_CONTROL) matches Some(d) && forall|i: int|
            0 <= i < d.attributes.len() && ((#[trigger] d.attributes[i]).index == 3 || d.attributes[i].index == 8
                || d.attributes[i].index == 9) ==> d.attributes[i].kind is Scalar,
        spec_managed_entity(CLASS_ENHANCED_SECURITY_CONTROL) matches Some(d) && d.attributes.len() == 12 && forall|i: int|
            0 <= i < 12 ==> (#[trigger] d.attributes[i]).index == i + 1,
{
    reveal(spec_managed_entity);
    let s = spec_enhanced_security_attributes();
    assert forall|i: int| 0 <= i < s.len() && ((#[trigger] s[i]).index == 3 || s[i].index == 8 || s[i].index == 9) implies s[i].kind is Scalar by {
        if i == 0 {} else if i == 1 {} else if i == 2 {} else if i == 3 {} else if i == 4 {} else if i == 5 {}
        else if i == 6 {} else if i == 7 {} else if i == 8 {} else if i == 9 {} else if i == 10 {} else if i == 11 {}
    }
    assert forall|i: int| 0 <= i < 12 implies (#[trigger] s[i]).index == i + 1 by {
        if i == 0 {} else if i == 1 {} else if i == 2 {} else if i == 3 {} else if i == 4 {} else if i == 5 {}
        else if i == 6 {} else if i == 7 {} else if i == 8 {} else if i == 9 {} else if i == 10 {} else if i == 11 {}
    }
    let o = spec_onu_data_attributes();
    assert forall|i: int| 0 <= i < o.len() && (#[trigger] o[i]).index == 1 implies o[i].kind is Scalar by {
        assert(i == 0);
    }
}

} // verus!
