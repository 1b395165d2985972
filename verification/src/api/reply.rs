//! What a call is answered.
use crate::encoding::{Conversion, ConversionModel};
use crate::error::{CtclError, CtclErrorModel};
use crate::instant::{InstantView, InstantViewModel};
use crate::store::audit::{AuditEntry, AuditModel};
use crate::store::device::{DeviceEvent, DeviceEventModel};
use crate::store::endpoints::{AgentEndpoint, EndpointModel};
use crate::store::error::{StoreError, StoreErrorModel};
use crate::store::groups::{ExpansionModel, GroupExpansion};
use crate::store::receipts::{DecisionReceipt, ReceiptModel};
use crate::store::table;
use crate::store::triggers::{Trigger, TriggerModel};
use crate::store::wake_events::{WakeEvent, WakeEventModel};
use crate::text;
use vstd::prelude::*;

verus! {

/// What a call that was carried out yields.
#[derive(Debug, Clone)]
pub enum Data {
    Now(InstantView),
    Converted(Conversion),
    Systems(Vec<String>),
    Groups(Vec<String>),
    Expansion(GroupExpansion),
    Audit(Vec<AuditEntry>),
    DeviceEvents(Vec<DeviceEvent>),
    Triggers(Vec<Trigger>),
    Trigger(Trigger),
    WakeEvents(Vec<WakeEvent>),
    WakeEvent(WakeEvent),
    Receipt(DecisionReceipt),
    Agents(Vec<AgentEndpoint>),
    Agent(AgentEndpoint),
}

pub enum DataModel {
    Now(InstantViewModel),
    Converted(ConversionModel),
    Systems(Seq<Seq<char>>),
    Groups(Seq<Seq<char>>),
    Expansion(ExpansionModel),
    Audit(Seq<AuditModel>),
    DeviceEvents(Seq<DeviceEventModel>),
    Triggers(Seq<TriggerModel>),
    Trigger(TriggerModel),
    WakeEvents(Seq<WakeEventModel>),
    WakeEvent(WakeEventModel),
    Receipt(ReceiptModel),
    Agents(Seq<EndpointModel>),
    Agent(EndpointModel),
}

impl View for Data {
    type V = DataModel;

    open spec fn view(&self) -> DataModel {
        match *self {
            Data::Now(v) => DataModel::Now(v@),
            Data::Converted(v) => DataModel::Converted(v@),
            Data::Systems(v) => DataModel::Systems(text::all(v@)),
            Data::Groups(v) => DataModel::Groups(text::all(v@)),
            Data::Expansion(v) => DataModel::Expansion(v@),
            Data::Audit(v) => DataModel::Audit(table::models(v@)),
            Data::DeviceEvents(v) => DataModel::DeviceEvents(table::models(v@)),
            Data::Triggers(v) => DataModel::Triggers(table::models(v@)),
            Data::Trigger(v) => DataModel::Trigger(v@),
            Data::WakeEvents(v) => DataModel::WakeEvents(table::models(v@)),
            Data::WakeEvent(v) => DataModel::WakeEvent(v@),
            Data::Receipt(v) => DataModel::Receipt(v@),
            Data::Agents(v) => DataModel::Agents(table::models(v@)),
            Data::Agent(v) => DataModel::Agent(v@),
        }
    }
}

/// An answer: data with status 200, or a refusal with a status of its own.
#[derive(Debug, Clone)]
pub enum Reply {
    Done(Data),
    Refused { status: u16, code: String, message: String },
}

pub enum ReplyModel {
    Done(DataModel),
    Refused { status: u16, code: Seq<char>, message: Seq<char> },
}

impl View for Reply {
    type V = ReplyModel;

    open spec fn view(&self) -> ReplyModel {
        match *self {
            Reply::Done(d) => ReplyModel::Done(d@),
            Reply::Refused { status, code, message } => ReplyModel::Refused {
                status,
                code: code@,
                message: message@,
            },
        }
    }
}

impl ReplyModel {
    /// The HTTP status of the answer.
    pub open spec fn status(self) -> u16 {
        match self {
            ReplyModel::Done(_) => 200,
            ReplyModel::Refused { status, .. } => status,
        }
    }
}

/// The refusal that an error of the registry leads to.
pub open spec fn refusal(e: StoreErrorModel) -> ReplyModel {
    ReplyModel::Refused { status: 400, code: e.code(), message: e.message() }
}

/// The refusal that an error of a conversion leads to.
pub open spec fn bad_value(e: CtclErrorModel) -> ReplyModel {
    ReplyModel::Refused { status: 400, code: e.code(), message: e.message() }
}

impl Reply {
    /// The HTTP status of the answer.
    pub fn status(&self) -> (r: u16)
        ensures
            r == self@.status(),
    {
        match self {
            Reply::Done(_) => 200,
            Reply::Refused { status, .. } => *status,
        }
    }

    /// A refusal.
    pub fn refused(status: u16, code: &str, message: &str) -> (r: Reply)
        ensures
            r@ == (ReplyModel::Refused { status, code: code@, message: message@ }),
    {
        Reply::Refused { status, code: code.to_owned(), message: message.to_owned() }
    }

    /// The refusal that an error of the registry leads to.
    pub fn from_store_error(e: StoreError) -> (r: Reply)
        ensures
            r@ == refusal(e@),
    {
        let message = e.message();
        Reply::refused(400, e.code(), message.as_str())
    }

    /// The refusal that an error of a conversion leads to.
    pub fn from_core_error(e: CtclError) -> (r: Reply)
        ensures
            r@ == bad_value(e@),
    {
        let message = e.message();
        Reply::refused(400, e.code(), message.as_str())
    }
}

} // verus!
