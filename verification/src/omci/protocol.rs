//! OMCI message model: action codes, result codes, requests and responses.
//!
//! A request is held as its decoded header fields and contents; a response is
//! held as its kind and the values it carries, so that the managed-entity
//! logic can be stated over plain values.
use vstd::prelude::*;

verus! {

pub const ACTION_CREATE: u8 = 4;
pub const ACTION_DELETE: u8 = 6;
pub const ACTION_SET: u8 = 8;
pub const ACTION_GET: u8 = 9;
pub const ACTION_GET_ALL_ALARMS: u8 = 11;
pub const ACTION_GET_ALL_ALARMS_NEXT: u8 = 12;
pub const ACTION_MIB_UPLOAD: u8 = 13;
pub const ACTION_MIB_UPLOAD_NEXT: u8 = 14;
pub const ACTION_MIB_RESET: u8 = 15;
pub const ACTION_ATTRIBUTE_VALUE_CHANGE: u8 = 17;
pub const ACTION_SYNCHRONIZE_TIME: u8 = 24;
pub const ACTION_GET_NEXT: u8 = 26;
pub const ACTION_GET_CURRENT_DATA: u8 = 28;
pub const ACTION_SET_TABLE: u8 = 29;

pub const RESULT_SUCCESS: u8 = 0;
pub const RESULT_COMMAND_NOT_SUPPORTED: u8 = 2;
pub const RESULT_PARAMETER_ERROR: u8 = 3;
pub const RESULT_UNKNOWN_ME: u8 = 4;
pub const RESULT_UNKNOWN_INSTANCE: u8 = 5;
pub const RESULT_INSTANCE_EXISTS: u8 = 7;
pub const RESULT_ATTRIBUTE_FAILED: u8 = 9;

/// Value bytes a baseline Get response carries after its result and mask.
pub const BASELINE_GET_CAPACITY: usize = 25;
/// Value bytes an extended Get response carries after its result and masks.
pub const EXTENDED_GET_CAPACITY: usize = 1959;
/// Table bytes a baseline Get Next response carries after its result and mask.
pub const BASELINE_GET_NEXT_CAPACITY: usize = 29;
/// Table bytes an extended Get Next response carries after its result and mask.
pub const EXTENDED_GET_NEXT_CAPACITY: usize = 1963;
/// Attribute bytes a baseline MIB Upload Next response carries.
pub const UPLOAD_RECORD_CAPACITY: usize = 26;

/// The attribute-mask bit of attribute `index` (1 is the most significant bit).
pub open spec fn spec_attribute_bit(index: u8) -> Option<u16> {
    if 1 <= index <= 16 {
        Some((0x8000u16 >> ((index - 1) as u16)) as u16)
    } else {
        None
    }
}

/// Returns the attribute-mask bit of an attribute index in `1..=16`.
pub fn attribute_bit(index: u8) -> (bit: Option<u16>)
    ensures
        bit == spec_attribute_bit(index),
{
    if 1 <= index && index <= 16 {
        Some(0x8000u16 >> ((index - 1) as u16))
    } else {
        None
    }
}

#[derive(Clone, Copy, Debug, PartialEq, Eq, Structural)]
pub enum Encoding {
    Baseline,
    Extended,
}

/// A decoded OMCI request.
#[derive(Clone, Debug)]
pub struct Request {
    pub encoding: Encoding,
    pub tci: u16,
    pub message_type: u8,
    pub action: u8,
    pub class_id: u16,
    pub entity_id: u16,
    pub attribute_mask: u16,
    /// The message contents as received.
    pub payload: Vec<u8>,
    /// The contents that follow the attribute mask (the whole contents where no mask precedes them).
    pub content: Vec<u8>,
}

pub open spec fn spec_get_value_capacity(encoding: Encoding) -> usize {
    match encoding {
        Encoding::Baseline => BASELINE_GET_CAPACITY,
        Encoding::Extended => EXTENDED_GET_CAPACITY,
    }
}

pub open spec fn spec_get_next_value_capacity(encoding: Encoding) -> usize {
    match encoding {
        Encoding::Baseline => BASELINE_GET_NEXT_CAPACITY,
        Encoding::Extended => EXTENDED_GET_NEXT_CAPACITY,
    }
}

impl Request {
    /// Attribute bytes that fit in the Get response of this request's encoding.
    pub fn get_value_capacity(&self) -> (capacity: usize)
        ensures
            capacity == spec_get_value_capacity(self.encoding),
    {
        match self.encoding {
            Encoding::Baseline => BASELINE_GET_CAPACITY,
            Encoding::Extended => EXTENDED_GET_CAPACITY,
        }
    }

    /// Table bytes that fit in one Get Next response of this request's encoding.
    pub fn get_next_value_capacity(&self) -> (capacity: usize)
        ensures
            capacity == spec_get_next_value_capacity(self.encoding),
    {
        match self.encoding {
            Encoding::Baseline => BASELINE_GET_NEXT_CAPACITY,
            Encoding::Extended => EXTENDED_GET_NEXT_CAPACITY,
        }
    }

    /// The name of the 16-bit selector field: a sequence number for the
    /// "next" actions and an attribute mask otherwise.
    pub fn selector_name(&self) -> (name: &'static str)
        ensures
            name@ == (if self.action == ACTION_MIB_UPLOAD_NEXT || self.action == ACTION_GET_ALL_ALARMS_NEXT {
                "sequence"@
            } else {
                "mask"@
            }),
    {
        proof {
            reveal_strlit("sequence");
            reveal_strlit("mask");
        }
        if self.action == ACTION_MIB_UPLOAD_NEXT || self.action == ACTION_GET_ALL_ALARMS_NEXT {
            "sequence"
        } else {
            "mask"
        }
    }
}

/// What a response carries after its header.
#[derive(Debug)]
pub enum ResponseBody {
    /// A bare result code.
    Result { result: u8 },
    /// A successful Get: the mask of returned attributes and their values in index order.
    GetSuccess { attribute_mask: u16, values: Vec<u8> },
    SetSuccess,
    GetNextSuccess { attribute_mask: u16, values: Vec<u8> },
    /// Number of MIB Upload Next commands that follow.
    MibUpload { commands: u16 },
    MibUploadNext { class_id: u16, entity_id: u16, attribute_mask: u16, values: Vec<u8> },
    /// Number of Get All Alarms Next commands that follow.
    GetAllAlarms { commands: u16 },
    GetAllAlarmsNextEmpty,
    SynchronizeTimeSuccess,
    /// An autonomous attribute value change notification.
    AttributeValueChange { attribute_mask: u16, values: Vec<u8> },
}

#[derive(Debug)]
pub struct Response {
    pub encoding: Encoding,
    pub tci: u16,
    pub action: u8,
    pub class_id: u16,
    pub entity_id: u16,
    pub body: ResponseBody,
}

pub ghost enum ResponseBodyView {
    Result { result: u8 },
    GetSuccess { attribute_mask: u16, values: Seq<u8> },
    SetSuccess,
    GetNextSuccess { attribute_mask: u16, values: Seq<u8> },
    MibUpload { commands: u16 },
    MibUploadNext { class_id: u16, entity_id: u16, attribute_mask: u16, values: Seq<u8> },
    GetAllAlarms { commands: u16 },
    GetAllAlarmsNextEmpty,
    SynchronizeTimeSuccess,
    AttributeValueChange { attribute_mask: u16, values: Seq<u8> },
}

pub ghost struct ResponseView {
    pub encoding: Encoding,
    pub tci: u16,
    pub action: u8,
    pub class_id: u16,
    pub entity_id: u16,
    pub body: ResponseBodyView,
}

impl View for ResponseBody {
    type V = ResponseBodyView;

    open spec fn view(&self) -> ResponseBodyView {
        match self {
            ResponseBody::Result { result } => ResponseBodyView::Result { result: *result },
            ResponseBody::GetSuccess { attribute_mask, values } => ResponseBodyView::GetSuccess {
                attribute_mask: *attribute_mask,
                values: values@,
            },
            ResponseBody::SetSuccess => ResponseBodyView::SetSuccess,
            ResponseBody::GetNextSuccess { attribute_mask, values } =>
                ResponseBodyView::GetNextSuccess { attribute_mask: *attribute_mask, values: values@ },
            ResponseBody::MibUpload { commands } => ResponseBodyView::MibUpload { commands: *commands },
            ResponseBody::MibUploadNext { class_id, entity_id, attribute_mask, values } =>
                ResponseBodyView::MibUploadNext {
                    class_id: *class_id,
                    entity_id: *entity_id,
                    attribute_mask: *attribute_mask,
                    values: values@,
                },
            ResponseBody::GetAllAlarms { commands } => ResponseBodyView::GetAllAlarms { commands: *commands },
            ResponseBody::GetAllAlarmsNextEmpty => ResponseBodyView::GetAllAlarmsNextEmpty,
            ResponseBody::SynchronizeTimeSuccess => ResponseBodyView::SynchronizeTimeSuccess,
            ResponseBody::AttributeValueChange { attribute_mask, values } =>
                ResponseBodyView::AttributeValueChange { attribute_mask: *attribute_mask, values: values@ },
        }
    }
}

impl View for Response {
    type V = ResponseView;

    open spec fn view(&self) -> ResponseView {
        ResponseView {
            encoding: self.encoding,
            tci: self.tci,
            action: self.action,
            class_id: self.class_id,
            entity_id: self.entity_id,
            body: self.body@,
        }
    }
}

/// The result code a response body carries, if it carries one.
pub open spec fn spec_body_result(body: ResponseBodyView) -> Option<u8> {
    match body {
        ResponseBodyView::Result { result } => Some(result),
        ResponseBodyView::GetSuccess { .. } => Some(RESULT_SUCCESS),
        ResponseBodyView::SetSuccess => Some(RESULT_SUCCESS),
        ResponseBodyView::GetNextSuccess { .. } => Some(RESULT_SUCCESS),
        ResponseBodyView::SynchronizeTimeSuccess => Some(RESULT_SUCCESS),
        _ => None,
    }
}

/// The response header that answers `request`.
pub open spec fn spec_answer(request: &Request, body: ResponseBodyView) -> ResponseView {
    ResponseView {
        encoding: request.encoding,
        tci: request.tci,
        action: request.action,
        class_id: request.class_id,
        entity_id: request.entity_id,
        body: body,
    }
}

impl Response {
    fn answer(request: &Request, body: ResponseBody) -> (response: Response)
        ensures
            response@ == spec_answer(request, body@),
    {
        Response {
            encoding: request.encoding,
            tci: request.tci,
            action: request.action,
            class_id: request.class_id,
            entity_id: request.entity_id,
            body,
        }
    }

    /// A response that carries only `result`.
    pub fn new(request: &Request, result: u8) -> (response: Response)
        ensures
            response@ == spec_answer(request, ResponseBodyView::Result { result }),
    {
        Self::answer(request, ResponseBody::Result { result })
    }

    pub fn get_success(request: &Request, attribute_mask: u16, values: &Vec<u8>) -> (response: Response)
        ensures
            response@ == spec_answer(request, ResponseBodyView::GetSuccess { attribute_mask, values: values@ }),
    {
        Self::answer(request, ResponseBody::GetSuccess { attribute_mask, values: values.clone() })
    }

    pub fn set_success(request: &Request) -> (response: Response)
        ensures
            response@ == spec_answer(request, ResponseBodyView::SetSuccess),
    {
        Self::answer(request, ResponseBody::SetSuccess)
    }

    pub fn get_next_success(request: &Request, attribute_mask: u16, values: Vec<u8>) -> (response: Response)
        ensures
            response@ == spec_answer(request, ResponseBodyView::GetNextSuccess { attribute_mask, values: values@ }),
    {
        Self::answer(request, ResponseBody::GetNextSuccess { attribute_mask, values })
    }

    pub fn mib_upload(request: &Request, commands: u16) -> (response: Response)
        ensures
            response@ == spec_answer(request, ResponseBodyView::MibUpload { commands }),
    {
        Self::answer(request, ResponseBody::MibUpload { commands })
    }

    pub fn mib_upload_next(
        request: &Request,
        class_id: u16,
        entity_id: u16,
        attribute_mask: u16,
        values: Vec<u8>,
    ) -> (response: Response)
        ensures
            response@ == spec_answer(
                request,
                ResponseBodyView::MibUploadNext { class_id, entity_id, attribute_mask, values: values@ },
            ),
    {
        Self::answer(request, ResponseBody::MibUploadNext { class_id, entity_id, attribute_mask, values })
    }

    pub fn get_all_alarms(request: &Request, commands: u16) -> (response: Response)
        ensures
            response@ == spec_answer(request, ResponseBodyView::GetAllAlarms { commands }),
    {
        Self::answer(request, ResponseBody::GetAllAlarms { commands })
    }

    pub fn get_all_alarms_next_empty(request: &Request) -> (response: Response)
        ensures
            response@ == spec_answer(request, ResponseBodyView::GetAllAlarmsNextEmpty),
    {
        Self::answer(request, ResponseBody::GetAllAlarmsNextEmpty)
    }

    pub fn synchronize_time_success(request: &Request) -> (response: Response)
        ensures
            response@ == spec_answer(request, ResponseBodyView::SynchronizeTimeSuccess),
    {
        Self::answer(request, ResponseBody::SynchronizeTimeSuccess)
    }

    /// An autonomous baseline notification that attributes of an entity changed.
    pub fn attribute_value_change(
        tci: u16,
        class_id: u16,
        entity_id: u16,
        attribute_mask: u16,
        values: &Vec<u8>,
    ) -> (response: Response)
        ensures
            response@ == (ResponseView {
                encoding: Encoding::Baseline,
                tci,
                action: ACTION_ATTRIBUTE_VALUE_CHANGE,
                class_id,
                entity_id,
                body: ResponseBodyView::AttributeValueChange { attribute_mask, values: values@ },
            }),
    {
        Response {
            encoding: Encoding::Baseline,
            tci,
            action: ACTION_ATTRIBUTE_VALUE_CHANGE,
            class_id,
            entity_id,
            body: ResponseBody::AttributeValueChange { attribute_mask, values: values.clone() },
        }
    }

    /// A copy of this response.
    pub fn duplicate(&self) -> (copy: Response)
        ensures
            copy@ == self@,
    {
        let body = match &self.body {
            ResponseBody::Result { result } => ResponseBody::Result { result: *result },
            ResponseBody::GetSuccess { attribute_mask, values } =>
                ResponseBody::GetSuccess { attribute_mask: *attribute_mask, values: values.clone() },
            ResponseBody::SetSuccess => ResponseBody::SetSuccess,
            ResponseBody::GetNextSuccess { attribute_mask, values } =>
                ResponseBody::GetNextSuccess { attribute_mask: *attribute_mask, values: values.clone() },
            ResponseBody::MibUpload { commands } => ResponseBody::MibUpload { commands: *commands },
            ResponseBody::MibUploadNext { class_id, entity_id, attribute_mask, values } => ResponseBody::MibUploadNext {
                class_id: *class_id,
                entity_id: *entity_id,
                attribute_mask: *attribute_mask,
                values: values.clone(),
            },
            ResponseBody::GetAllAlarms { commands } => ResponseBody::GetAllAlarms { commands: *commands },
            ResponseBody::GetAllAlarmsNextEmpty => ResponseBody::GetAllAlarmsNextEmpty,
            ResponseBody::SynchronizeTimeSuccess => ResponseBody::SynchronizeTimeSuccess,
            ResponseBody::AttributeValueChange { attribute_mask, values } =>
                ResponseBody::AttributeValueChange { attribute_mask: *attribute_mask, values: values.clone() },
        };
        Response {
            encoding: self.encoding,
            tci: self.tci,
            action: self.action,
            class_id: self.class_id,
            entity_id: self.entity_id,
            body,
        }
    }

    /// The result code of this response, if its kind carries one.
    pub fn result(&self) -> (result: Option<u8>)
        ensures
            result == spec_body_result(self@.body),
    {
        match &self.body {
            ResponseBody::Result { result } => Some(*result),
            ResponseBody::GetSuccess { .. } => Some(RESULT_SUCCESS),
            ResponseBody::SetSuccess => Some(RESULT_SUCCESS),
            ResponseBody::GetNextSuccess { .. } => Some(RESULT_SUCCESS),
            ResponseBody::SynchronizeTimeSuccess => Some(RESULT_SUCCESS),
            _ => None,
        }
    }
}

} // verus!
