//! What to do about the services that SMF supervises.

use crate::number;
use vstd::prelude::*;

verus! {

/// The state of a service instance.
#[derive(Clone, Copy, Debug, PartialEq, Eq, Structural)]
pub enum SmfState {
    Disabled,
    Degraded,
    Maintenance,
    Offline,
    Online,
    Legacy,
    Uninitialized,
}

/// The name of a state.
pub open spec fn state_name(state: SmfState) -> Seq<char> {
    match state {
        SmfState::Disabled => "Disabled"@,
        SmfState::Degraded => "Degraded"@,
        SmfState::Maintenance => "Maintenance"@,
        SmfState::Offline => "Offline"@,
        SmfState::Online => "Online"@,
        SmfState::Legacy => "Legacy"@,
        SmfState::Uninitialized => "Uninitialized"@,
    }
}

impl SmfState {
    /// The name of this state.
    pub fn as_str(&self) -> (name: &'static str)
        ensures
            name@ == state_name(*self),
    {
        match self {
            SmfState::Disabled => "Disabled",
            SmfState::Degraded => "Degraded",
            SmfState::Maintenance => "Maintenance",
            SmfState::Offline => "Offline",
            SmfState::Online => "Online",
            SmfState::Legacy => "Legacy",
            SmfState::Uninitialized => "Uninitialized",
        }
    }
}

/// What to do about a service that is to be restarted.
#[derive(Clone, Copy, Debug, PartialEq, Eq, Structural)]
pub enum RestartAction {
    /// Nothing: there is no such service.
    NotFound,
    /// Restart it.
    Restart,
    /// Nothing: it is not online.
    Skip,
}

/// What to do about a service that is to be restarted, where `states` are those of the instances
/// found. The first of them counts.
pub fn restart_action(states: &Vec<SmfState>) -> (action: RestartAction)
    ensures
        action == (if states@.len() == 0 {
            RestartAction::NotFound
        } else if states@[0] == SmfState::Online {
            RestartAction::Restart
        } else {
            RestartAction::Skip
        }),
{
    if states.len() == 0 {
        RestartAction::NotFound
    } else if states[0] == SmfState::Online {
        RestartAction::Restart
    } else {
        RestartAction::Skip
    }
}

/// A service instance, as SMF reports it.
#[derive(Clone, Copy, Debug, PartialEq, Eq, Structural)]
pub struct InstanceStatus {
    pub state: SmfState,
    /// The contract that its processes run under.
    pub contract_id: Option<usize>,
}

/// What to do about the HAProxy service.
#[derive(Debug, PartialEq, Eq)]
pub enum HaproxyAction {
    /// Enable it, and wait for it to come online.
    Enable,
    /// Clear it from maintenance.
    Clear,
    /// Have its processes take up the configuration, by `pkill` with these arguments.
    Reload(Vec<String>),
    /// Restart it.
    Restart,
    /// Nothing.
    Leave,
}

/// What an [`HaproxyAction`] says.
#[verifier::ext_equal]
pub enum HaproxyActionView {
    Enable,
    Clear,
    Reload(Seq<Seq<char>>),
    Restart,
    Leave,
}

impl View for HaproxyAction {
    type V = HaproxyActionView;

    open spec fn view(&self) -> HaproxyActionView {
        match self {
            HaproxyAction::Enable => HaproxyActionView::Enable,
            HaproxyAction::Clear => HaproxyActionView::Clear,
            HaproxyAction::Reload(args) => HaproxyActionView::Reload(
                args@.map_values(|a: String| a@),
            ),
            HaproxyAction::Restart => HaproxyActionView::Restart,
            HaproxyAction::Leave => HaproxyActionView::Leave,
        }
    }
}

/// Why nothing can be done about the HAProxy service.
#[derive(Clone, Copy, Debug, PartialEq, Eq, Structural)]
pub enum EnsureError {
    /// There is no such service.
    NotFound,
    /// It is in a state that only an operator can end.
    NonActionable(SmfState),
}

impl EnsureError {
    /// The error in words.
    pub open spec fn message(self) -> Seq<char> {
        match self {
            EnsureError::NotFound => "HAProxy service not found"@,
            EnsureError::NonActionable(state) => "HAProxy non-actionable state: "@ + state_name(
                state,
            ),
        }
    }

    /// The error in words.
    pub fn to_string(&self) -> (message: String)
        ensures
            message@ == self.message(),
    {
        match self {
            EnsureError::NotFound => "HAProxy service not found".to_owned(),
            EnsureError::NonActionable(state) => {
                let mut message = "HAProxy non-actionable state: ".to_owned();
                message.append(state.as_str());
                message
            },
        }
    }
}

/// The arguments that make `pkill` send `USR2` to the HAProxy processes of a contract.
pub open spec fn reload_arguments(contract_id: nat) -> Seq<Seq<char>> {
    seq!["-USR2"@, "-c"@, number::decimal(contract_id), "haproxy"@]
}

/// What to do about the HAProxy service in this state.
pub open spec fn action_for(status: InstanceStatus, config_changed: bool) -> Result<
    HaproxyActionView,
    EnsureError,
> {
    match status.state {
        SmfState::Disabled => Ok(HaproxyActionView::Enable),
        SmfState::Maintenance => Ok(HaproxyActionView::Clear),
        SmfState::Online => if !config_changed {
            Ok(HaproxyActionView::Leave)
        } else {
            match status.contract_id {
                Some(id) => Ok(HaproxyActionView::Reload(reload_arguments(id as nat))),
                None => Ok(HaproxyActionView::Restart),
            }
        },
        _ => Err(EnsureError::NonActionable(status.state)),
    }
}

/// What to do about the HAProxy service, where `instances` are those found. The first of them
/// counts.
pub fn haproxy_action(instances: &Vec<InstanceStatus>, config_changed: bool) -> (r: Result<
    HaproxyAction,
    EnsureError,
>)
    ensures
        match r {
            Ok(action) => {
                &&& instances@.len() > 0
                &&& action_for(instances@[0], config_changed) == Ok::<_, EnsureError>(action@)
            },
            Err(e) => if instances@.len() == 0 {
                e == EnsureError::NotFound
            } else {
                action_for(instances@[0], config_changed) == Err::<HaproxyActionView, _>(e)
            },
        },
{
    if instances.len() == 0 {
        return Err(EnsureError::NotFound);
    }
    let status = instances[0];
    match status.state {
        SmfState::Disabled => Ok(HaproxyAction::Enable),
        SmfState::Maintenance => Ok(HaproxyAction::Clear),
        SmfState::Online => {
            if !config_changed {
                return Ok(HaproxyAction::Leave);
            }
            match status.contract_id {
                Some(id) => {
                    let mut number = String::new();
                    number::push_decimal(&mut number, id as u64);
                    assert(number@ =~= number::decimal(id as nat));
                    let arguments = vec![
                        "-USR2".to_owned(),
                        "-c".to_owned(),
                        number,
                        "haproxy".to_owned(),
                    ];
                    let action = HaproxyAction::Reload(arguments);
                    assert(action@->Reload_0 =~= reload_arguments(id as nat));
                    Ok(action)
                },
                None => Ok(HaproxyAction::Restart),
            }
        },
        _ => Err(EnsureError::NonActionable(status.state)),
    }
}

/// Whether it is an error if `action` fails. Where the service could not be enabled or cleared, it
/// is not running; where it could not be told of a change, it runs on as it was.
pub fn failure_counts(action: &HaproxyAction) -> (b: bool)
    ensures
        b == (action@ is Enable || action@ is Clear),
{
    match action {
        HaproxyAction::Enable => true,
        HaproxyAction::Clear => true,
        _ => false,
    }
}

/// A running service is left alone unless its configuration changed, and then it takes up the
/// change, however it can.
pub proof fn running_service_is_disturbed_on_change_only(status: InstanceStatus)
    requires
        status.state == SmfState::Online,
    ensures
        action_for(status, false) == Ok::<_, EnsureError>(HaproxyActionView::Leave),
        action_for(status, true) matches Ok(action) && (action is Reload || action is Restart),
{
}

/// Whether the configuration changed matters to a running service only.
pub proof fn change_matters_to_a_running_service_only(status: InstanceStatus)
    requires
        status.state != SmfState::Online,
    ensures
        action_for(status, true) == action_for(status, false),
{
}

/// No failure counts where the service was running.
pub proof fn failures_do_not_count_in_a_running_service(
    status: InstanceStatus,
    config_changed: bool,
)
    requires
        status.state == SmfState::Online,
    ensures
        action_for(status, config_changed) matches Ok(action) && !(action is Enable
            || action is Clear),
{
}

} // verus!
