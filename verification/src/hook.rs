//! The lifecycle hook core: the phase gate, the interface selector, the
//! per-interface configuration plan, and the step machine that walks the
//! plan.
//!
//! Side effects stay outside this crate. The machine hands the caller one
//! action at a time — install a host route, or write one kernel setting —
//! and the caller reports how the action went. A failure halts the run at
//! once with the matching error, leaving earlier interfaces configured;
//! there is no rollback and no retry.

use vstd::prelude::*;

use crate::codec::{decode_spec, AddressDecodeError, Ipv4Address};
use crate::domain::{spec_interface_names, Domain};
use crate::text::{spec_has_prefix, split_char};

verus! {

/// Interface names that take part in the protocol carry this prefix.
pub open spec fn spec_managed(name: Seq<char>) -> bool {
    spec_has_prefix(name, "vmmd-"@)
}

/// The managed interface names, in their original order.
pub open spec fn spec_select(names: Seq<Seq<char>>) -> Seq<Seq<char>> {
    names.filter(|n: Seq<char>| spec_managed(n))
}

/// Keep the interface names with the managed prefix, preserving order.
/// No match is not a failure: the result is then empty.
pub fn select(names: &Vec<&str>) -> (r: Vec<String>)
    ensures
        r.deep_view() == spec_select(names.deep_view()),
{
    let ghost all = names.deep_view();
    let mut r: Vec<String> = Vec::new();
    let n = names.len();
    let mut i: usize = 0;
    proof {
        reveal(Seq::filter);
        assert(r.deep_view() =~= all.take(0).filter(|n: Seq<char>| spec_managed(n)));
    }
    while i < n
        invariant
            n == names@.len(),
            all == names.deep_view(),
            0 <= i <= n,
            r.deep_view() == all.take(i as int).filter(|n: Seq<char>| spec_managed(n)),
        decreases n - i,
    {
        let ghost pre = r.deep_view();
        if crate::text::has_prefix(names[i], "vmmd-") {
            r.push(names[i].to_owned());
        }
        proof {
            reveal(Seq::filter);
            assert(all.take(i + 1).drop_last() =~= all.take(i as int));
            assert(all.take(i + 1).last() == all[i as int]);
            if spec_managed(all[i as int]) {
                assert(r.deep_view() =~= pre.push(all[i as int]));
            } else {
                assert(r.deep_view() =~= pre);
            }
        }
        i = i + 1;
    }
    proof {
        assert(all.take(n as int) =~= all);
    }
    r
}

/// The selector keeps exactly the managed names: every selected name has
/// the prefix and came from the input, no more names come out than went
/// in, and an input with no managed name selects nothing. Relative order
/// is the input's, since selection filters in place.
pub proof fn lemma_select_only_managed(names: Seq<Seq<char>>)
    ensures
        forall|i: int|
            0 <= i < spec_select(names).len() ==> spec_managed(#[trigger] spec_select(names)[i]),
        forall|i: int|
            0 <= i < spec_select(names).len() ==> names.contains(#[trigger] spec_select(names)[i]),
        spec_select(names).len() <= names.len(),
        (forall|i: int| 0 <= i < names.len() ==> !spec_managed(#[trigger] names[i]))
            ==> spec_select(names) == Seq::<Seq<char>>::empty(),
{
    #[allow(deprecated)]
    names.filter_lemma(|n: Seq<char>| spec_managed(n));
    lemma_select_from_input(names);
    if forall|i: int| 0 <= i < names.len() ==> !spec_managed(#[trigger] names[i]) {
        if spec_select(names).len() > 0 {
            let x = spec_select(names)[0];
            assert(names.contains(x));
        }
        assert(spec_select(names) =~= Seq::<Seq<char>>::empty());
    }
}

/// Every selected name is one of the input names.
proof fn lemma_select_from_input(names: Seq<Seq<char>>)
    ensures
        forall|i: int|
            0 <= i < spec_select(names).len() ==> names.contains(#[trigger] spec_select(names)[i]),
    decreases names.len(),
{
    reveal(Seq::filter);
    if names.len() > 0 {
        let pre = names.drop_last();
        lemma_select_from_input(pre);
        let sel = spec_select(names);
        let psel = spec_select(pre);
        assert forall|i: int| 0 <= i < sel.len() implies names.contains(sel[i]) by {
            if i < psel.len() {
                assert(pre.contains(psel[i]));
                let j = choose|j: int| 0 <= j < pre.len() && pre[j] == psel[i];
                assert(names[j] == sel[i]);
            } else {
                assert(sel[i] == names.last());
                assert(names[names.len() - 1] == names.last());
            }
        }
    }
}

/// Only a started/begin event configures anything.
pub open spec fn spec_should_configure(operation: Seq<char>, sub_operation: Seq<char>) -> bool {
    operation == "started"@ && sub_operation == "begin"@
}

/// The phase gate: configuration runs only when the operation is
/// `started` and the sub-operation is `begin`.
pub fn should_configure(operation: &str, sub_operation: &str) -> (go: bool)
    ensures
        go == spec_should_configure(operation@, sub_operation@),
{
    crate::text::str_eq(operation, "started") && crate::text::str_eq(sub_operation, "begin")
}

/// Any other phase pair is skipped outright. A skipped invocation
/// succeeds without reading the domain document at all, so a document
/// that would not even parse cannot fail it.
pub proof fn lemma_mismatched_phase_skips(operation: Seq<char>, sub_operation: Seq<char>)
    requires
        operation != "started"@ || sub_operation != "begin"@,
    ensures
        !spec_should_configure(operation, sub_operation),
{
}

/// Why the hook failed, with the offending value.
#[derive(Debug)]
pub enum HookError {
    InvalidAddressEncoding { token: String, kind: AddressDecodeError },
    MalformedDocument { detail: String },
    MalformedInterfaceName { name: String },
    InterfaceNotFound { name: String },
    RoutingBackendError { detail: String },
    KernelConfigWriteError { detail: String },
}

/// The mathematical image of a `HookError`.
pub enum ErrorModel {
    InvalidAddressEncoding { token: Seq<char>, kind: AddressDecodeError },
    MalformedDocument { detail: Seq<char> },
    MalformedInterfaceName { name: Seq<char> },
    InterfaceNotFound { name: Seq<char> },
    RoutingBackendError { detail: Seq<char> },
    KernelConfigWriteError { detail: Seq<char> },
}

impl View for HookError {
    type V = ErrorModel;

    open spec fn view(&self) -> ErrorModel {
        match self {
            HookError::InvalidAddressEncoding { token, kind } => ErrorModel::InvalidAddressEncoding {
                token: token@,
                kind: *kind,
            },
            HookError::MalformedDocument { detail } => ErrorModel::MalformedDocument {
                detail: detail@,
            },
            HookError::MalformedInterfaceName { name } => ErrorModel::MalformedInterfaceName {
                name: name@,
            },
            HookError::InterfaceNotFound { name } => ErrorModel::InterfaceNotFound { name: name@ },
            HookError::RoutingBackendError { detail } => ErrorModel::RoutingBackendError {
                detail: detail@,
            },
            HookError::KernelConfigWriteError { detail } => ErrorModel::KernelConfigWriteError {
                detail: detail@,
            },
        }
    }
}

/// The human-readable message of an error, embedding the offending value.
pub open spec fn spec_message(e: ErrorModel) -> Seq<char> {
    match e {
        ErrorModel::InvalidAddressEncoding { token, kind } => match kind {
            AddressDecodeError::InvalidEncoding => "unable to decode input"@,
            AddressDecodeError::WrongLength => token + " does not decode to a 4 byte address"@,
        },
        ErrorModel::MalformedDocument { detail } => "failed to parse domain XML: "@ + detail,
        ErrorModel::MalformedInterfaceName { name } => "interface name "@ + name
            + " has no address field"@,
        ErrorModel::InterfaceNotFound { name } => "interface "@ + name + " not found"@,
        ErrorModel::RoutingBackendError { detail } => detail,
        ErrorModel::KernelConfigWriteError { detail } => detail,
    }
}

impl HookError {
    /// Render the error for the operator.
    pub fn message(&self) -> (m: String)
        ensures
            m@ == spec_message(self@),
    {
        match self {
            HookError::InvalidAddressEncoding { token, kind } => match kind {
                AddressDecodeError::InvalidEncoding => String::from_str("unable to decode input"),
                AddressDecodeError::WrongLength => {
                    let mut m = token.clone();
                    m.append(" does not decode to a 4 byte address");
                    m
                },
            },
            HookError::MalformedDocument { detail } => {
                let mut m = String::from_str("failed to parse domain XML: ");
                m.append(detail.as_str());
                m
            },
            HookError::MalformedInterfaceName { name } => {
                let mut m = String::from_str("interface name ");
                m.append(name.as_str());
                m.append(" has no address field");
                m
            },
            HookError::InterfaceNotFound { name } => {
                let mut m = String::from_str("interface ");
                m.append(name.as_str());
                m.append(" not found");
                m
            },
            HookError::RoutingBackendError { detail } => detail.clone(),
            HookError::KernelConfigWriteError { detail } => detail.clone(),
        }
    }
}

/// The two per-interface kernel settings the protocol toggles.
#[derive(Clone, Copy, Debug, PartialEq, Eq, Structural)]
pub enum KernelSetting {
    ProxyArp,
    ProxyDelay,
}

/// A host route to install: the decoded peer address as a single-address
/// destination, reachable on the named interface at link scope, installed
/// in replace mode so repeating it is harmless.
pub struct RouteSpec {
    pub destination: Ipv4Address,
    pub prefix_len: u8,
    pub interface: String,
}

/// One kernel setting to write for an interface: `1` to answer ARP on
/// the peer's behalf, `0` to reply without the default proxy delay.
pub struct KernelWrite {
    pub interface: String,
    pub setting: KernelSetting,
    pub value: String,
}

/// One side-effecting action of the protocol.
pub enum HookAction {
    InstallRoute(RouteSpec),
    WriteSetting(KernelWrite),
}

/// The mathematical images of the action types.
pub struct RouteModel {
    pub destination: Ipv4Address,
    pub prefix_len: u8,
    pub interface: Seq<char>,
}

pub struct WriteModel {
    pub interface: Seq<char>,
    pub setting: KernelSetting,
    pub value: Seq<char>,
}

pub enum ActionModel {
    InstallRoute(RouteModel),
    WriteSetting(WriteModel),
}

impl View for RouteSpec {
    type V = RouteModel;

    open spec fn view(&self) -> RouteModel {
        RouteModel {
            destination: self.destination,
            prefix_len: self.prefix_len,
            interface: self.interface@,
        }
    }
}

impl View for KernelWrite {
    type V = WriteModel;

    open spec fn view(&self) -> WriteModel {
        WriteModel { interface: self.interface@, setting: self.setting, value: self.value@ }
    }
}

impl View for HookAction {
    type V = ActionModel;

    open spec fn view(&self) -> ActionModel {
        match self {
            HookAction::InstallRoute(route) => ActionModel::InstallRoute(route@),
            HookAction::WriteSetting(write) => ActionModel::WriteSetting(write@),
        }
    }
}

impl DeepView for HookAction {
    type V = ActionModel;

    open spec fn deep_view(&self) -> ActionModel {
        self@
    }
}

/// The write action for one setting of one interface.
pub open spec fn spec_write_action(name: Seq<char>, setting: KernelSetting) -> ActionModel {
    ActionModel::WriteSetting(
        WriteModel {
            interface: name,
            setting,
            value: if setting == KernelSetting::ProxyArp {
                "1"@
            } else {
                "0"@
            },
        },
    )
}

/// The configuration plan for one interface name: split the name on
/// dashes, decode the second field as the peer address, then install the
/// host route and write the two kernel settings, in that order. A name
/// without a second field violates the naming convention; a field that
/// does not decode carries the codec's verdict.
pub open spec fn spec_interface_plan(name: Seq<char>) -> Result<Seq<ActionModel>, ErrorModel> {
    let fields = split_char(name, '-');
    if fields.len() < 2 {
        Err(ErrorModel::MalformedInterfaceName { name })
    } else {
        match decode_spec(fields[1]) {
            Ok(address) => Ok(
                seq![
                    ActionModel::InstallRoute(
                        RouteModel { destination: address, prefix_len: 32, interface: name },
                    ),
                    spec_write_action(name, KernelSetting::ProxyArp),
                    spec_write_action(name, KernelSetting::ProxyDelay),
                ],
            ),
            Err(kind) => Err(ErrorModel::InvalidAddressEncoding { token: fields[1], kind }),
        }
    }
}

/// Compute the plan for one interface name.
pub fn plan_for_interface(name: &str) -> (r: Result<Vec<HookAction>, HookError>)
    ensures
        match (r, spec_interface_plan(name@)) {
            (Ok(v), Ok(p)) => v.deep_view() == p,
            (Err(e), Err(m)) => e@ == m,
            _ => false,
        },
{
    let fields = crate::text::split(name, '-');
    if fields.len() < 2 {
        return Err(HookError::MalformedInterfaceName { name: name.to_owned() });
    }
    proof {
        assert(fields.deep_view()[1] == fields@[1]@);
    }
    let address = match crate::codec::decode(fields[1].as_str()) {
        Ok(address) => address,
        Err(kind) => {
            return Err(
                HookError::InvalidAddressEncoding { token: fields[1].clone(), kind },
            );
        },
    };
    let mut v: Vec<HookAction> = Vec::new();
    v.push(
        HookAction::InstallRoute(
            RouteSpec { destination: address, prefix_len: 32, interface: name.to_owned() },
        ),
    );
    v.push(
        HookAction::WriteSetting(
            KernelWrite {
                interface: name.to_owned(),
                setting: KernelSetting::ProxyArp,
                value: String::from_str("1"),
            },
        ),
    );
    v.push(
        HookAction::WriteSetting(
            KernelWrite {
                interface: name.to_owned(),
                setting: KernelSetting::ProxyDelay,
                value: String::from_str("0"),
            },
        ),
    );
    proof {
        assert(v.deep_view() =~= spec_interface_plan(name@)->Ok_0);
    }
    Ok(v)
}

/// Which step of one interface's protocol the run is at.
#[derive(Clone, Copy, Debug, PartialEq, Eq, Structural)]
pub enum HookStep {
    Route,
    ProxyArp,
    ProxyDelay,
}

/// How a handed-out action went, reported back by the caller. A route
/// installation can find the interface missing on the host or hit a
/// routing backend failure; a kernel setting write can be refused.
pub enum FailureReason {
    InterfaceMissing,
    Backend { detail: String },
    WriteRefused { detail: String },
}

pub enum ActionOutcome {
    Succeeded,
    Failed(FailureReason),
}

pub enum FailureModel {
    InterfaceMissing,
    Backend { detail: Seq<char> },
    WriteRefused { detail: Seq<char> },
}

pub enum OutcomeModel {
    Succeeded,
    Failed(FailureModel),
}

impl View for FailureReason {
    type V = FailureModel;

    open spec fn view(&self) -> FailureModel {
        match self {
            FailureReason::InterfaceMissing => FailureModel::InterfaceMissing,
            FailureReason::Backend { detail } => FailureModel::Backend { detail: detail@ },
            FailureReason::WriteRefused { detail } => FailureModel::WriteRefused {
                detail: detail@,
            },
        }
    }
}

impl View for ActionOutcome {
    type V = OutcomeModel;

    open spec fn view(&self) -> OutcomeModel {
        match self {
            ActionOutcome::Succeeded => OutcomeModel::Succeeded,
            ActionOutcome::Failed(reason) => OutcomeModel::Failed(reason@),
        }
    }
}

/// What the machine asks of its caller next: perform one action, or stop
/// with the run's result.
pub enum HookDirective {
    Perform(HookAction),
    Finish(Result<(), HookError>),
}

pub enum DirectiveModel {
    Perform(ActionModel),
    Finish(Result<(), ErrorModel>),
}

impl View for HookDirective {
    type V = DirectiveModel;

    open spec fn view(&self) -> DirectiveModel {
        match self {
            HookDirective::Perform(action) => DirectiveModel::Perform(action@),
            HookDirective::Finish(result) => DirectiveModel::Finish(
                match result {
                    Ok(_) => Ok(()),
                    Err(e) => Err(e@),
                },
            ),
        }
    }
}

/// The abstract state of one run: the selected interface names, the
/// position (interface index and step), and the result once the run has
/// halted.
pub struct RunModel {
    pub names: Seq<Seq<char>>,
    pub idx: int,
    pub step: HookStep,
    pub finished: Option<Result<(), ErrorModel>>,
}

impl RunModel {
    /// The position is inside the name list, and past the route step the
    /// current interface is known to decode (its route was already handed
    /// out).
    pub open spec fn wf(self) -> bool {
        &&& 0 <= self.idx <= self.names.len()
        &&& (self.finished is None && self.idx < self.names.len() && self.step != HookStep::Route
            ==> spec_interface_plan(self.names[self.idx]) is Ok)
    }
}

/// The initial state of a run over the selected names.
pub open spec fn spec_initial(names: Seq<Seq<char>>) -> RunModel {
    RunModel { names, idx: 0, step: HookStep::Route, finished: None }
}

/// The next directive of a run, with the state it leaves behind: a halted
/// run only restates its result; a run past the last interface halts
/// successfully; at a route step the interface name is decoded, and a
/// name that does not follow the convention halts the run; otherwise the
/// pending action is handed out and the state stands still until the
/// outcome is reported.
pub open spec fn spec_directive(m: RunModel) -> (RunModel, DirectiveModel) {
    if m.finished is Some {
        (m, DirectiveModel::Finish(m.finished->0))
    } else if m.idx >= m.names.len() {
        (
            RunModel { finished: Some(Ok(())), ..m },
            DirectiveModel::Finish(Ok(())),
        )
    } else {
        match m.step {
            HookStep::Route => match spec_interface_plan(m.names[m.idx]) {
                Ok(plan) => (m, DirectiveModel::Perform(plan[0])),
                Err(e) => (
                    RunModel { finished: Some(Err(e)), ..m },
                    DirectiveModel::Finish(Err(e)),
                ),
            },
            HookStep::ProxyArp => (
                m,
                DirectiveModel::Perform(spec_write_action(m.names[m.idx], KernelSetting::ProxyArp)),
            ),
            HookStep::ProxyDelay => (
                m,
                DirectiveModel::Perform(
                    spec_write_action(m.names[m.idx], KernelSetting::ProxyDelay),
                ),
            ),
        }
    }
}

/// The error a failure at the current position carries.
pub open spec fn spec_failure_error(m: RunModel, f: FailureModel) -> ErrorModel {
    match f {
        FailureModel::InterfaceMissing => ErrorModel::InterfaceNotFound { name: m.names[m.idx] },
        FailureModel::Backend { detail } => ErrorModel::RoutingBackendError { detail },
        FailureModel::WriteRefused { detail } => ErrorModel::KernelConfigWriteError { detail },
    }
}

/// An outcome may be reported only for the action the machine handed out:
/// the run must still be going, a route outcome belongs to a route step,
/// and a write outcome to a write step.
pub open spec fn spec_admissible(m: RunModel, outcome: OutcomeModel) -> bool {
    &&& m.finished is None
    &&& 0 <= m.idx < m.names.len()
    &&& (m.step == HookStep::Route ==> spec_interface_plan(m.names[m.idx]) is Ok)
    &&& match outcome {
        OutcomeModel::Succeeded => true,
        OutcomeModel::Failed(FailureModel::InterfaceMissing) => m.step == HookStep::Route,
        OutcomeModel::Failed(FailureModel::Backend { .. }) => m.step == HookStep::Route,
        OutcomeModel::Failed(FailureModel::WriteRefused { .. }) => m.step != HookStep::Route,
    }
}

/// How a reported outcome moves the run: success advances to the next
/// step — route, proxy-ARP write, proxy-delay write, then the next
/// interface — and any failure halts the run at once with its error.
pub open spec fn spec_report(m: RunModel, outcome: OutcomeModel) -> RunModel {
    match outcome {
        OutcomeModel::Succeeded => match m.step {
            HookStep::Route => RunModel { step: HookStep::ProxyArp, ..m },
            HookStep::ProxyArp => RunModel { step: HookStep::ProxyDelay, ..m },
            HookStep::ProxyDelay => RunModel { idx: m.idx + 1, step: HookStep::Route, ..m },
        },
        OutcomeModel::Failed(f) => RunModel {
            finished: Some(Err(spec_failure_error(m, f))),
            ..m
        },
    }
}

/// One hook run: walks the selected interfaces in order and hands out
/// their actions one at a time.
pub struct HookRun {
    pub names: Vec<String>,
    pub idx: usize,
    pub step: HookStep,
    pub halted: bool,
    pub outcome: Ghost<Option<Result<(), ErrorModel>>>,
}

impl View for HookRun {
    type V = RunModel;

    open spec fn view(&self) -> RunModel {
        RunModel {
            names: self.names.deep_view(),
            idx: self.idx as int,
            step: self.step,
            finished: self.outcome@,
        }
    }
}

impl HookRun {
    /// The halt flag mirrors the model's result.
    pub open spec fn inv(&self) -> bool {
        &&& self@.wf()
        &&& self.halted == (self.outcome@ is Some)
    }

    /// Start a run over the selected interface names.
    pub fn new(selected: Vec<String>) -> (r: HookRun)
        ensures
            r.inv(),
            r@ == spec_initial(selected.deep_view()),
    {
        HookRun {
            names: selected,
            idx: 0,
            step: HookStep::Route,
            halted: false,
            outcome: Ghost(None),
        }
    }

    /// Ask the machine what to do next. After a `Finish` directive the
    /// run is over and nothing more may be asked of it.
    pub fn next_directive(&mut self) -> (d: HookDirective)
        requires
            old(self).inv(),
            old(self)@.finished is None,
        ensures
            final(self).inv(),
            final(self)@ == spec_directive(old(self)@).0,
            d@ == spec_directive(old(self)@).1,
    {
        if self.idx >= self.names.len() {
            self.halted = true;
            proof {
                self.outcome@ = Some(Ok(()));
            }
            return HookDirective::Finish(Ok(()));
        }
        match self.step {
            HookStep::Route => {
                let ghost gname = old(self)@.names[old(self)@.idx];
                proof {
                    assert(self.names.deep_view()[self.idx as int] == self.names@[self.idx as int]@);
                }
                match plan_for_interface(self.names[self.idx].as_str()) {
                    Ok(mut plan) => {
                        proof {
                            assert(spec_interface_plan(gname) is Ok);
                            assert(plan.deep_view() == spec_interface_plan(gname)->Ok_0);
                            assert(spec_interface_plan(gname)->Ok_0.len() == 3);
                            assert(plan@.len() == plan.deep_view().len());
                        }
                        let action = plan.remove(0);
                        proof {
                            assert(action.deep_view() == spec_interface_plan(gname)->Ok_0[0]);
                        }
                        HookDirective::Perform(action)
                    },
                    Err(e) => {
                        self.halted = true;
                        proof {
                            self.outcome@ = Some(Err(e@));
                        }
                        HookDirective::Finish(Err(e))
                    },
                }
            },
            HookStep::ProxyArp => HookDirective::Perform(
                HookAction::WriteSetting(
                    KernelWrite {
                        interface: self.names[self.idx].clone(),
                        setting: KernelSetting::ProxyArp,
                        value: String::from_str("1"),
                    },
                ),
            ),
            HookStep::ProxyDelay => HookDirective::Perform(
                HookAction::WriteSetting(
                    KernelWrite {
                        interface: self.names[self.idx].clone(),
                        setting: KernelSetting::ProxyDelay,
                        value: String::from_str("0"),
                    },
                ),
            ),
        }
    }

    /// Report how the last handed-out action went. Success moves the run
    /// forward; failure halts it and returns the run's error, already
    /// shaped by where it struck: a missing interface or a backend fault
    /// during the route step, a refused write during a setting step.
    pub fn report(&mut self, outcome: ActionOutcome) -> (done: Option<Result<(), HookError>>)
        requires
            old(self).inv(),
            spec_admissible(old(self)@, outcome@),
        ensures
            final(self).inv(),
            final(self)@ == spec_report(old(self)@, outcome@),
            match done {
                None => final(self)@.finished is None,
                Some(Ok(_)) => false,
                Some(Err(e)) => final(self)@.finished == Some(Err::<(), ErrorModel>(e@)),
            },
    {
        match outcome {
            ActionOutcome::Succeeded => {
                match self.step {
                    HookStep::Route => {
                        self.step = HookStep::ProxyArp;
                    },
                    HookStep::ProxyArp => {
                        self.step = HookStep::ProxyDelay;
                    },
                    HookStep::ProxyDelay => {
                        let n = self.names.len();
                        proof {
                            assert((self.idx as int) < self.names.deep_view().len());
                            assert(self.names.deep_view().len() == n as int);
                        }
                        self.idx = self.idx + 1;
                        self.step = HookStep::Route;
                    },
                }
                None
            },
            ActionOutcome::Failed(reason) => {
                let e = match reason {
                    FailureReason::InterfaceMissing => HookError::InterfaceNotFound {
                        name: self.names[self.idx].clone(),
                    },
                    FailureReason::Backend { detail } => HookError::RoutingBackendError { detail },
                    FailureReason::WriteRefused { detail } => HookError::KernelConfigWriteError {
                        detail,
                    },
                };
                self.halted = true;
                proof {
                    self.outcome@ = Some(Err(e@));
                }
                Some(Err(e))
            },
        }
    }
}

/// A domain without a device list, without an interface list, or with an
/// empty one selects no interface: the run's first directive already
/// finishes successfully, and no action is ever handed out.
pub proof fn lemma_no_interfaces_succeeds(d: &Domain)
    requires
        d.devices is None || d.devices->Some_0.interfaces is None
            || d.devices->Some_0.interfaces->Some_0@.len() == 0,
    ensures
        ({
            let selected = spec_select(spec_interface_names(d));
            &&& selected == Seq::<Seq<char>>::empty()
            &&& spec_directive(spec_initial(selected)).1 == DirectiveModel::Finish(
                Ok::<(), ErrorModel>(()),
            )
        }),
{
    reveal(Seq::filter);
    assert(spec_interface_names(d) =~= Seq::<Seq<char>>::empty());
    assert(spec_select(spec_interface_names(d)) =~= Seq::<Seq<char>>::empty());
}

/// Within one interface the machine hands out exactly that interface's
/// plan, in order — the route first, then the proxy-ARP write, then the
/// proxy-delay write — and only then moves to the next interface.
pub proof fn lemma_steps_follow_plan(m: RunModel)
    requires
        m.wf(),
        m.finished is None,
        0 <= m.idx < m.names.len(),
        m.step == HookStep::Route,
        spec_interface_plan(m.names[m.idx]) is Ok,
    ensures
        ({
            let plan = spec_interface_plan(m.names[m.idx])->Ok_0;
            let after_route = spec_report(m, OutcomeModel::Succeeded);
            let after_arp = spec_report(after_route, OutcomeModel::Succeeded);
            let after_delay = spec_report(after_arp, OutcomeModel::Succeeded);
            &&& spec_directive(m).1 == DirectiveModel::Perform(plan[0])
            &&& spec_directive(after_route).1 == DirectiveModel::Perform(plan[1])
            &&& spec_directive(after_arp).1 == DirectiveModel::Perform(plan[2])
            &&& after_delay.idx == m.idx + 1
            &&& after_delay.step == HookStep::Route
        }),
{
}

/// The crude failure model of the protocol, preserved on purpose: when
/// the route is already installed and the first kernel setting write
/// fails, the run halts with `KernelConfigWriteError` — the second
/// setting of that interface is never handed out, nor any action for the
/// interfaces after it, and nothing is rolled back.
pub proof fn lemma_write_failure_halts(m: RunModel, detail: Seq<char>)
    requires
        m.wf(),
        m.finished is None,
        0 <= m.idx < m.names.len(),
        m.step == HookStep::Route,
        spec_interface_plan(m.names[m.idx]) is Ok,
    ensures
        ({
            let after_route = spec_report(m, OutcomeModel::Succeeded);
            let halted = spec_report(
                after_route,
                OutcomeModel::Failed(FailureModel::WriteRefused { detail }),
            );
            &&& after_route.step == HookStep::ProxyArp
            &&& halted.finished == Some(
                Err::<(), ErrorModel>(ErrorModel::KernelConfigWriteError { detail }),
            )
            &&& spec_directive(halted).1 == DirectiveModel::Finish(
                Err::<(), ErrorModel>(ErrorModel::KernelConfigWriteError { detail }),
            )
            &&& spec_directive(halted).0 == halted
        }),
{
}

} // verus!
