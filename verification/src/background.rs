//! Which background tasks run. A task that is off does not run at all.
use crate::number::{Float, Number};
use crate::observer;
use crate::observer::pace;
use crate::store::settings;
use crate::store::settings::{Settings, SettingsModel};
use vstd::prelude::*;

verus! {

/// The tasks that are to run, each with what it is to be started with: the port, the seconds between
/// two samples and the drift that is tolerated, the seconds between two rounds.
#[derive(Debug, Clone)]
pub struct Tasks {
    pub local_api: Option<u16>,
    pub device_observer: Option<(u64, Number)>,
    pub trigger_engine: Option<u64>,
    pub wake_delivery: Option<u64>,
}

pub struct TasksModel {
    pub local_api: Option<u16>,
    pub device_observer: Option<(u64, Float)>,
    pub trigger_engine: Option<u64>,
    pub wake_delivery: Option<u64>,
}

impl View for Tasks {
    type V = TasksModel;

    open spec fn view(&self) -> TasksModel {
        TasksModel {
            local_api: self.local_api,
            device_observer: match self.device_observer {
                Some((interval_s, drift)) => Some((interval_s, drift@)),
                None => None,
            },
            trigger_engine: self.trigger_engine,
            wake_delivery: self.wake_delivery,
        }
    }
}

/// The tasks that settings ask for.
pub open spec fn tasks_of(s: SettingsModel) -> TasksModel {
    TasksModel {
        local_api: if s.local_api_enabled {
            Some(s.local_api_port)
        } else {
            None
        },
        device_observer: if s.device_clock_observer_enabled {
            Some(
                (
                    observer::paced(s.device_clock_sample_interval_s),
                    s.device_clock_drift_threshold_s,
                ),
            )
        } else {
            None
        },
        trigger_engine: if s.triggers_enabled {
            Some(observer::paced(s.trigger_check_interval_s))
        } else {
            None
        },
        wake_delivery: if s.wake_delivery_enabled {
            Some(observer::paced(s.wake_delivery_check_interval_s))
        } else {
            None
        },
    }
}

impl Tasks {
    /// The tasks that settings ask for.
    pub fn wanted(s: &Settings) -> (r: Tasks)
        ensures
            r@ == tasks_of(s@),
    {
        Tasks {
            local_api: if s.local_api_enabled {
                Some(s.local_api_port)
            } else {
                None
            },
            device_observer: if s.device_clock_observer_enabled {
                Some((pace(s.device_clock_sample_interval_s), s.device_clock_drift_threshold_s))
            } else {
                None
            },
            trigger_engine: if s.triggers_enabled {
                Some(pace(s.trigger_check_interval_s))
            } else {
                None
            },
            wake_delivery: if s.wake_delivery_enabled {
                Some(pace(s.wake_delivery_check_interval_s))
            } else {
                None
            },
        }
    }
}

/// At the start nothing runs in the background.
pub proof fn law_nothing_runs_at_first(token: Seq<char>)
    ensures
        tasks_of(settings::initial_settings(token)) == (TasksModel {
            local_api: None,
            device_observer: None,
            trigger_engine: None,
            wake_delivery: None,
        }),
{
}

/// A task runs if and only if it is switched on, with what the settings say for it, and whatever is said
/// for the others; rounds are at least a second apart.
pub proof fn law_task_runs_where_it_is_switched_on(s: SettingsModel)
    ensures
        ({
            let t = tasks_of(s);
            &&& s.local_api_enabled ==> t.local_api == Some(s.local_api_port)
            &&& !s.local_api_enabled ==> t.local_api is None
            &&& s.device_clock_observer_enabled ==> (t.device_observer matches Some((pace, drift)) && drift
                == s.device_clock_drift_threshold_s && pace == (if s.device_clock_sample_interval_s == 0 {
                1
            } else {
                s.device_clock_sample_interval_s
            }))
            &&& !s.device_clock_observer_enabled ==> t.device_observer is None
            &&& s.triggers_enabled ==> t.trigger_engine == Some(
                if s.trigger_check_interval_s == 0 {
                    1
                } else {
                    s.trigger_check_interval_s
                },
            )
            &&& !s.triggers_enabled ==> t.trigger_engine is None
            &&& s.wake_delivery_enabled ==> t.wake_delivery == Some(
                if s.wake_delivery_check_interval_s == 0 {
                    1
                } else {
                    s.wake_delivery_check_interval_s
                },
            )
            &&& !s.wake_delivery_enabled ==> t.wake_delivery is None
        }),
{
}

} // verus!
