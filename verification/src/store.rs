//! The registry: everything that is remembered, as tables held in memory, and the operations on them.
use vstd::prelude::*;
pub mod audit;
pub mod delivery;
pub mod device;
pub mod endpoints;
pub mod error;
pub mod groups;
pub mod instants;
pub mod receipts;
pub mod settings;
pub mod sound;
pub mod systems;
pub mod table;
pub mod triggers;
pub mod wake_events;

use crate::store::audit::{AuditEntry, AuditModel};
use crate::store::device::{DeviceEvent, DeviceEventModel};
use crate::store::endpoints::{AgentEndpoint, EndpointModel};
use crate::store::groups::{GroupModel, GroupRecord};
use crate::store::instants::{InstantRecordModel, InstantRow};
use crate::store::receipts::{DecisionReceipt, ReceiptModel};
use crate::store::settings::{Settings, SettingsModel};
use crate::store::systems::{SystemRecord, SystemRecordModel};
use crate::store::triggers::{Trigger, TriggerModel};
use crate::store::wake_events::{WakeEvent, WakeEventModel};

verus! {

/// The registry. Rows stand in the order in which they were first put in.
pub struct Store {
    pub instants: Vec<InstantRow>,
    pub systems: Vec<SystemRecord>,
    pub groups: Vec<GroupRecord>,
    pub triggers: Vec<Trigger>,
    pub audit_log: Vec<AuditEntry>,
    pub device_events: Vec<DeviceEvent>,
    pub settings: Option<Settings>,
    pub wake_events: Vec<WakeEvent>,
    pub decision_receipts: Vec<DecisionReceipt>,
    pub agent_endpoints: Vec<AgentEndpoint>,
}

#[verifier::ext_equal]
pub struct StoreModel {
    pub instants: Seq<InstantRecordModel>,
    pub systems: Seq<SystemRecordModel>,
    pub groups: Seq<GroupModel>,
    pub triggers: Seq<TriggerModel>,
    pub audit_log: Seq<AuditModel>,
    pub device_events: Seq<DeviceEventModel>,
    pub settings: Option<SettingsModel>,
    pub wake_events: Seq<WakeEventModel>,
    pub decision_receipts: Seq<ReceiptModel>,
    pub agent_endpoints: Seq<EndpointModel>,
}

impl View for Store {
    type V = StoreModel;

    open spec fn view(&self) -> StoreModel {
        StoreModel {
            instants: table::models(self.instants@),
            systems: table::models(self.systems@),
            groups: table::models(self.groups@),
            triggers: table::models(self.triggers@),
            audit_log: table::models(self.audit_log@),
            device_events: table::models(self.device_events@),
            settings: match self.settings {
                Some(s) => Some(s@),
                None => None,
            },
            wake_events: table::models(self.wake_events@),
            decision_receipts: table::models(self.decision_receipts@),
            agent_endpoints: table::models(self.agent_endpoints@),
        }
    }
}

impl StoreModel {
    /// The registry in which nothing is remembered.
    pub open spec fn empty() -> StoreModel {
        StoreModel {
            instants: Seq::empty(),
            systems: Seq::empty(),
            groups: Seq::empty(),
            triggers: Seq::empty(),
            audit_log: Seq::empty(),
            device_events: Seq::empty(),
            settings: None,
            wake_events: Seq::empty(),
            decision_receipts: Seq::empty(),
            agent_endpoints: Seq::empty(),
        }
    }
}

impl Store {
    /// A registry in which nothing is remembered yet.
    pub fn open() -> (r: Store)
        ensures
            r@ == StoreModel::empty(),
    {
        Store {
            instants: Vec::new(),
            systems: Vec::new(),
            groups: Vec::new(),
            triggers: Vec::new(),
            audit_log: Vec::new(),
            device_events: Vec::new(),
            settings: None,
            wake_events: Vec::new(),
            decision_receipts: Vec::new(),
            agent_endpoints: Vec::new(),
        }
    }
}

} // verus!
