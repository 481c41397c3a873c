//! The bootstrap orchestrator: one synchronous pass that selects candidate
//! interfaces, partitions channel-acquisition outcomes, classifies a failed
//! acquisition, decides the DNS step, and assembles the bundle — or reports
//! exactly one failure. Channel acquisition is decided before DNS
//! construction, so a channel failure is never masked by a DNS one.

use vstd::prelude::*;
use crate::channel::{OpenErrorKind, OpenOutcome};
use crate::errors::{BootstrapError, BootstrapFailure};
use crate::errors::{failure_text, has_substring, lemma_not_found_message_names_interface, Platform};
use crate::iface::{
    as_int_seq, candidate_indices, candidates_model, lemma_candidates_sound,
    lemma_first_match_finds, lemma_first_match_none, lemma_first_match_sound,
    lemma_usable_indices_sound, name_view, usable, usable_indices, IfaceInfo, IfaceModel,
};
use crate::keyboard::KeyboardEvents;
use crate::signal::ResizeBridge;
use crate::sink::OutputSink;

verus! {

/// The positions of the outcomes that carry a live channel, ascending.
pub open spec fn opened_positions(outcomes: Seq<OpenOutcome>) -> Seq<int>
    decreases outcomes.len(),
{
    if outcomes.len() == 0 {
        Seq::empty()
    } else {
        let prefix = opened_positions(outcomes.drop_last());
        if outcomes.last() is Opened {
            prefix.push(outcomes.len() - 1)
        } else {
            prefix
        }
    }
}

pub proof fn lemma_opened_positions_sound(outcomes: Seq<OpenOutcome>)
    ensures
        forall|k: int|
            0 <= k < opened_positions(outcomes).len() ==> 0 <= #[trigger] opened_positions(
                outcomes,
            )[k] < outcomes.len() && outcomes[opened_positions(outcomes)[k]] is Opened,
        forall|k1: int, k2: int|
            0 <= k1 < k2 < opened_positions(outcomes).len() ==> #[trigger] opened_positions(
                outcomes,
            )[k1] < #[trigger] opened_positions(outcomes)[k2],
    decreases outcomes.len(),
{
    if outcomes.len() > 0 {
        let d = outcomes.drop_last();
        let p = opened_positions(d);
        lemma_opened_positions_sound(d);
        assert(forall|i: int| 0 <= i < d.len() ==> #[trigger] d[i] == outcomes[i]);
        assert forall|k: int| 0 <= k < opened_positions(outcomes).len() implies 0
            <= #[trigger] opened_positions(outcomes)[k] < outcomes.len() && outcomes[opened_positions(
            outcomes,
        )[k]] is Opened by {
            if k < p.len() {
                assert(opened_positions(outcomes)[k] == p[k]);
                assert(d[p[k]] is Opened);
            } else {
                assert(opened_positions(outcomes)[k] == outcomes.len() - 1);
            }
        }
        assert forall|k1: int, k2: int|
            0 <= k1 < k2 < opened_positions(outcomes).len() implies #[trigger] opened_positions(
            outcomes,
        )[k1] < #[trigger] opened_positions(outcomes)[k2] by {
            if k2 >= p.len() {
                assert(opened_positions(outcomes)[k1] == p[k1]);
                assert(0 <= p[k1] < d.len());
            }
        }
    }
}

/// Whether some recorded failure was classified as permission-denied.
pub open spec fn any_permission_failure(outcomes: Seq<OpenOutcome>) -> bool {
    exists|i: int|
        0 <= i < outcomes.len() && (#[trigger] outcomes[i]) == OpenOutcome::Failed(
            OpenErrorKind::PermissionDenied,
        )
}

/// The failure reported when no channel at all could be acquired: a
/// permission-denied open turns the whole attempt into the permission
/// failure; otherwise the generic no-usable-interfaces failure stands.
pub open spec fn failure_verdict(outcomes: Seq<OpenOutcome>) -> BootstrapFailure {
    if any_permission_failure(outcomes) {
        BootstrapFailure::InsufficientPermissions
    } else {
        BootstrapFailure::NoUsableInterfaces
    }
}

/// Partitions the candidates' acquisition outcomes: on any success, the
/// order-preserving subsequence of interfaces whose channel opened, paired
/// by position with the outcomes that carry the channels; on total failure,
/// the verdict over the recorded failures.
pub fn partition_opened(candidates: &Vec<IfaceInfo>, outcomes: &Vec<OpenOutcome>) -> (r: Result<
    (Vec<IfaceInfo>, Vec<usize>),
    BootstrapError,
>)
    requires
        candidates@.len() == outcomes@.len(),
    ensures
        match r {
            Ok(pair) => ({
                let pos = opened_positions(outcomes@);
                &&& pos.len() > 0
                &&& as_int_seq(pair.1@) == pos
                &&& pair.0@.len() == pos.len()
                &&& forall|j: int|
                    0 <= j < pos.len() ==> #[trigger] pair.0.deep_view()[j]
                        == candidates.deep_view()[pos[j]]
            }),
            Err(e) => opened_positions(outcomes@).len() == 0 && e@ == failure_verdict(outcomes@),
        },
{
    let ghost cd = candidates.deep_view();
    let mut kept: Vec<IfaceInfo> = Vec::new();
    let mut pos: Vec<usize> = Vec::new();
    let mut i: usize = 0;
    while i < candidates.len()
        invariant
            0 <= i <= candidates.len(),
            candidates@.len() == outcomes@.len(),
            cd == candidates.deep_view(),
            cd.len() == candidates@.len(),
            as_int_seq(pos@) == opened_positions(outcomes@.take(i as int)),
            kept@.len() == pos@.len(),
            forall|j: int| 0 <= j < pos@.len() ==> (#[trigger] pos@[j]) < i,
            forall|j: int|
                0 <= j < pos@.len() ==> (#[trigger] kept@[j]).deep_view() == cd[pos@[j] as int],
        decreases candidates.len() - i,
    {
        let ghost prev_pos = pos@;
        let ghost prev_kept = kept@;
        let opened = match outcomes[i] {
            OpenOutcome::Opened => true,
            OpenOutcome::Failed(_) => false,
        };
        if opened {
            let c = candidates[i].clone();
            proof {
                assert(cd[i as int] == candidates@[i as int].deep_view());
            }
            kept.push(c);
            pos.push(i);
            proof {
                assert(as_int_seq(pos@) =~= as_int_seq(prev_pos).push(i as int));
                assert forall|j: int| 0 <= j < pos@.len() implies (#[trigger] pos@[j]) < i
                    + 1 by {
                    if j < prev_pos.len() {
                        assert(pos@[j] == prev_pos[j]);
                    } else {
                        assert(pos@[j] == i);
                    }
                }
                assert forall|j: int| 0 <= j < pos@.len() implies (#[trigger] kept@[j]).deep_view()
                    == cd[pos@[j] as int] by {
                    if j < prev_pos.len() {
                        assert(pos@[j] == prev_pos[j]);
                        assert(kept@[j] == prev_kept[j]);
                    } else {
                        assert(pos@[j] == i);
                        assert(kept@[j] == c);
                    }
                }
            }
        }
        proof {
            assert(outcomes@.take(i + 1).drop_last() =~= outcomes@.take(i as int));
            assert(outcomes@.take(i + 1).last() == outcomes@[i as int]);
        }
        i += 1;
    }
    proof {
        assert(outcomes@.take(outcomes@.len() as int) =~= outcomes@);
        assert(forall|j: int|
            0 <= j < pos@.len() ==> (#[trigger] kept.deep_view()[j]) == kept@[j].deep_view());
    }
    if pos.len() > 0 {
        Ok((kept, pos))
    } else {
        proof {
            assert(opened_positions(outcomes@).len() == as_int_seq(pos@).len());
        }
        let mut k: usize = 0;
        while k < outcomes.len()
            invariant
                0 <= k <= outcomes@.len(),
                opened_positions(outcomes@).len() == 0,
                forall|j: int|
                    0 <= j < k ==> (#[trigger] outcomes@[j]) != OpenOutcome::Failed(
                        OpenErrorKind::PermissionDenied,
                    ),
            decreases outcomes@.len() - k,
        {
            let is_perm = match outcomes[k] {
                OpenOutcome::Failed(OpenErrorKind::PermissionDenied) => true,
                _ => false,
            };
            if is_perm {
                proof {
                    assert(outcomes@[k as int] == OpenOutcome::Failed(
                        OpenErrorKind::PermissionDenied,
                    ));
                    assert(any_permission_failure(outcomes@));
                }
                return Err(BootstrapError::InsufficientPermissions);
            }
            k += 1;
        }
        proof {
            if any_permission_failure(outcomes@) {
                let i = choose|i: int|
                    0 <= i < outcomes@.len() && #[trigger] outcomes@[i] == OpenOutcome::Failed(
                        OpenErrorKind::PermissionDenied,
                    );
                assert(outcomes@[i] != OpenOutcome::Failed(OpenErrorKind::PermissionDenied));
                assert(false);
            }
        }
        Err(BootstrapError::NoUsableInterfaces)
    }
}

/// Selects the candidate interfaces and clones their snapshots out of the
/// directory: the candidates paired with their directory positions,
/// ascending in discovery order, or the interface-not-found failure.
pub fn select_candidates(ifaces: &Vec<IfaceInfo>, name: &Option<String>) -> (r: Result<
    (Vec<IfaceInfo>, Vec<usize>),
    BootstrapError,
>)
    ensures
        match r {
            Ok(pair) => ({
                &&& candidates_model(ifaces.deep_view(), name_view(*name)) == Ok::<
                    Seq<int>,
                    BootstrapFailure,
                >(as_int_seq(pair.1@))
                &&& pair.0@.len() == pair.1@.len()
                &&& forall|k: int| 0 <= k < pair.1@.len() ==> (#[trigger] pair.1@[k]) < ifaces@.len()
                &&& forall|k: int|
                    0 <= k < pair.1@.len() ==> (#[trigger] pair.0@[k]).deep_view()
                        == ifaces.deep_view()[pair.1@[k] as int]
            }),
            Err(e) => candidates_model(ifaces.deep_view(), name_view(*name)) == Err::<
                Seq<int>,
                BootstrapFailure,
            >(e@),
        },
{
    let ghost ds = ifaces.deep_view();
    match candidate_indices(ifaces, name) {
        Err(e) => Err(e),
        Ok(idxs) => {
            proof {
                lemma_candidates_sound(ds, name_view(*name));
                assert(ds.len() == ifaces@.len());
                let cs = as_int_seq(idxs@);
                assert(candidates_model(ds, name_view(*name)) matches Ok(csm) && csm == cs);
                assert(cs.len() == idxs@.len());
                assert forall|k: int| 0 <= k < idxs@.len() implies (#[trigger] idxs@[k])
                    < ifaces@.len() by {
                    assert(cs[k] == idxs@[k] as int);
                    assert(0 <= cs[k] < ds.len());
                }
            }
            let mut cands: Vec<IfaceInfo> = Vec::new();
            let mut k: usize = 0;
            while k < idxs.len()
                invariant
                    0 <= k <= idxs@.len(),
                    ds == ifaces.deep_view(),
                    ds.len() == ifaces@.len(),
                    cands@.len() == k,
                    forall|l: int| 0 <= l < idxs@.len() ==> (#[trigger] idxs@[l]) < ifaces@.len(),
                    forall|l: int|
                        0 <= l < k ==> (#[trigger] cands@[l]).deep_view() == ds[idxs@[l] as int],
                decreases idxs@.len() - k,
            {
                let c = ifaces[idxs[k]].clone();
                proof {
                    assert(ds[idxs@[k as int] as int] == ifaces@[idxs@[k as int] as int].deep_view());
                }
                cands.push(c);
                k += 1;
            }
            Ok((cands, idxs))
        },
    }
}

/// What driving the resolver's construction on the background execution
/// context produced.
#[derive(Clone, Copy, Debug, PartialEq, Eq, Structural)]
pub enum DnsOutcome {
    /// The resolver came up; a usable client can be assembled.
    Ready,
    /// Construction failed, e.g. no network path to a resolver.
    ConstructionFailed,
}

/// Decides the DNS step: construction is attempted exactly when resolution
/// was requested, its failure is the DNS-unavailable error, and on success
/// the bundle includes a client exactly when resolution was requested.
pub fn resolve_dns(resolve: bool, outcome: Option<DnsOutcome>) -> (r: Result<
    bool,
    BootstrapError,
>)
    requires
        resolve <==> outcome is Some,
    ensures
        match r {
            Ok(included) => included == resolve && (resolve ==> outcome == Some(
                DnsOutcome::Ready,
            )),
            Err(e) => e@ == BootstrapFailure::DnsUnavailable && outcome == Some(
                DnsOutcome::ConstructionFailed,
            ),
        },
{
    match outcome {
        Some(DnsOutcome::Ready) => Ok(true),
        Some(DnsOutcome::ConstructionFailed) => Err(BootstrapError::DnsUnavailable),
        None => Ok(false),
    }
}

/// The mathematical shape of a successful bootstrap: the kept interfaces,
/// the directory positions whose channels they are paired with, and whether
/// a DNS client is included.
#[verifier::ext_equal]
pub struct PlanModel {
    pub interfaces: Seq<IfaceModel>,
    pub channels: Seq<int>,
    pub dns: bool,
}

/// The whole orchestration, as a function of what the environment would
/// answer: candidate selection, channel partition and failure verdict, then
/// the DNS step — in that order, so a channel failure is reported even when
/// the resolver would also have failed.
pub open spec fn bootstrap_model(
    ifaces: Seq<IfaceModel>,
    name: Option<Seq<char>>,
    resolve: bool,
    open: Seq<OpenOutcome>,
    dns_ok: bool,
) -> Result<PlanModel, BootstrapFailure> {
    match candidates_model(ifaces, name) {
        Err(f) => Err(f),
        Ok(cands) => {
            let sub = Seq::new(cands.len(), |k: int| open[cands[k]]);
            let pos = opened_positions(sub);
            if pos.len() == 0 {
                Err(failure_verdict(sub))
            } else if resolve && !dns_ok {
                Err(BootstrapFailure::DnsUnavailable)
            } else {
                Ok(
                    PlanModel {
                        interfaces: Seq::new(pos.len(), |j: int| ifaces[cands[pos[j]]]),
                        channels: Seq::new(pos.len(), |j: int| cands[pos[j]]),
                        dns: resolve,
                    },
                )
            }
        },
    }
}

/// One observation of the process's surroundings, handed in by whoever
/// talks to the OS: the interface directory's snapshot, what opening a
/// channel on each interface yielded (consulted only for candidates), and
/// whether resolver construction would come up.
#[derive(Debug)]
pub struct HostEnv {
    pub ifaces: Vec<IfaceInfo>,
    pub open_results: Vec<OpenOutcome>,
    pub dns_ok: bool,
}

/// The assembled bundle: interfaces and their channels as equal-length
/// sequences paired by position, the optional DNS client, and the freshly
/// constructed keyboard stream, resize bridge and output sink.
#[derive(Debug)]
pub struct BundlePlan {
    pub interfaces: Vec<IfaceInfo>,
    /// Directory positions: element `j` names the interface whose open
    /// outcome carries the channel paired with `interfaces[j]`.
    pub channel_indices: Vec<usize>,
    /// Whether a DNS client is part of the bundle.
    pub dns_client: bool,
    pub keyboard: KeyboardEvents,
    pub bridge: ResizeBridge,
    pub sink: OutputSink,
}

impl View for BundlePlan {
    type V = PlanModel;

    open spec fn view(&self) -> PlanModel {
        PlanModel {
            interfaces: self.interfaces.deep_view(),
            channels: as_int_seq(self.channel_indices@),
            dns: self.dns_client,
        }
    }
}

/// The bootstrap orchestrator: one synchronous pass over the observed
/// environment that returns the complete bundle or exactly one failure.
pub fn get_input(env: HostEnv, interface_name: &Option<String>, resolve: bool) -> (r: Result<
    BundlePlan,
    BootstrapError,
>)
    requires
        env.open_results@.len() == env.ifaces@.len(),
    ensures
        ({
            let m = bootstrap_model(
                env.ifaces.deep_view(),
                name_view(*interface_name),
                resolve,
                env.open_results@,
                env.dns_ok,
            );
            match r {
                Ok(plan) => m matches Ok(p) && plan@ == p && !plan.keyboard.ended
                    && !plan.bridge.closed,
                Err(e) => m matches Err(f) && e@ == f,
            }
        }),
{
    let ghost ds = env.ifaces.deep_view();
    let ghost open = env.open_results@;
    let (candidates, cand_pos) = match select_candidates(&env.ifaces, interface_name) {
        Ok(p) => p,
        Err(e) => {
            return Err(e);
        },
    };
    let ghost cands = as_int_seq(cand_pos@);
    let ghost sub_m = Seq::new(cands.len(), |k: int| open[cands[k]]);
    proof {
        assert(ds.len() == env.ifaces@.len());
    }
    let mut sub: Vec<OpenOutcome> = Vec::new();
    let mut k: usize = 0;
    while k < cand_pos.len()
        invariant
            0 <= k <= cand_pos@.len(),
            sub@.len() == k,
            env.open_results@.len() == env.ifaces@.len(),
            forall|l: int| 0 <= l < cand_pos@.len() ==> (#[trigger] cand_pos@[l]) < env.ifaces@.len(),
            forall|l: int|
                0 <= l < k ==> (#[trigger] sub@[l]) == env.open_results@[cand_pos@[l] as int],
        decreases cand_pos@.len() - k,
    {
        sub.push(env.open_results[cand_pos[k]]);
        k += 1;
    }
    proof {
        assert(sub@ =~= sub_m) by {
            assert(cands.len() == cand_pos@.len());
            assert(forall|l: int|
                0 <= l < cands.len() ==> (#[trigger] cands[l]) == cand_pos@[l] as int);
            assert(forall|l: int| 0 <= l < cands.len() ==> (#[trigger] sub_m[l]) == open[cands[l]]);
        }
    }
    let (kept, pos) = match partition_opened(&candidates, &sub) {
        Ok(p) => p,
        Err(e) => {
            return Err(e);
        },
    };
    let dns_outcome = if resolve {
        if env.dns_ok {
            Some(DnsOutcome::Ready)
        } else {
            Some(DnsOutcome::ConstructionFailed)
        }
    } else {
        None
    };
    let dns_client = match resolve_dns(resolve, dns_outcome) {
        Ok(included) => included,
        Err(e) => {
            return Err(e);
        },
    };
    let ghost pos_m = opened_positions(sub_m);
    proof {
        lemma_opened_positions_sound(sub_m);
        assert(forall|l: int| 0 <= l < pos@.len() ==> (#[trigger] pos@[l]) as int == pos_m[l]);
        assert(forall|l: int| 0 <= l < pos_m.len() ==> 0 <= (#[trigger] pos_m[l]) < cands.len());
    }
    let mut channel_indices: Vec<usize> = Vec::new();
    let mut j: usize = 0;
    while j < pos.len()
        invariant
            0 <= j <= pos@.len(),
            channel_indices@.len() == j,
            pos_m == opened_positions(sub_m),
            pos@.len() == pos_m.len(),
            cands.len() == cand_pos@.len(),
            forall|l: int| 0 <= l < pos@.len() ==> (#[trigger] pos@[l]) as int == pos_m[l],
            forall|l: int| 0 <= l < pos_m.len() ==> 0 <= (#[trigger] pos_m[l]) < cands.len(),
            forall|l: int|
                0 <= l < j ==> (#[trigger] channel_indices@[l]) == cand_pos@[pos@[l] as int],
        decreases pos@.len() - j,
    {
        channel_indices.push(cand_pos[pos[j]]);
        j += 1;
    }
    let plan = BundlePlan {
        interfaces: kept,
        channel_indices,
        dns_client,
        keyboard: KeyboardEvents::new(),
        bridge: ResizeBridge::new(),
        sink: OutputSink::new(),
    };
    proof {
        let m = bootstrap_model(ds, name_view(*interface_name), resolve, open, env.dns_ok);
        let p = m->Ok_0;
        assert(plan@.channels =~= p.channels) by {
            assert(forall|l: int|
                0 <= l < plan.channel_indices@.len() ==> (#[trigger] plan@.channels[l])
                    == plan.channel_indices@[l] as int);
            assert(forall|l: int|
                0 <= l < cands.len() ==> (#[trigger] cands[l]) == cand_pos@[l] as int);
        }
        assert(plan@.interfaces =~= p.interfaces) by {
            assert(forall|l: int|
                0 <= l < plan.interfaces@.len() ==> (#[trigger] plan@.interfaces[l])
                    == plan.interfaces@[l].deep_view());
            assert(forall|l: int|
                0 <= l < candidates@.len() ==> (#[trigger] candidates.deep_view()[l])
                    == candidates@[l].deep_view());
            assert(forall|l: int|
                0 <= l < cands.len() ==> (#[trigger] cands[l]) == cand_pos@[l] as int);
        }
        assert(plan@ =~= p);
    }
    Ok(plan)
}

/// A directory containing no interface named `name` rejects a bootstrap
/// restricted to that name with the interface-not-found failure, whose
/// message contains the requested name verbatim.
pub proof fn lemma_unknown_interface_rejected(
    ifaces: Seq<IfaceModel>,
    name: Seq<char>,
    resolve: bool,
    open: Seq<OpenOutcome>,
    dns_ok: bool,
    platform: Platform,
)
    requires
        !crate::iface::has_named(ifaces, name),
    ensures
        bootstrap_model(ifaces, Some(name), resolve, open, dns_ok) == Err::<PlanModel, _>(
            BootstrapFailure::InterfaceNotFound { name },
        ),
        has_substring(
            failure_text(BootstrapFailure::InterfaceNotFound { name }, platform),
            name,
        ),
{
    lemma_first_match_none(ifaces, name);
    lemma_not_found_message_names_interface(name, platform);
}

/// When every interface is down or has no address, bootstrap yields the
/// generic no-usable-interfaces failure — whether all interfaces were taken
/// or one present interface was named — regardless of the open outcomes,
/// the resolve flag and the resolver.
pub proof fn lemma_all_unusable_rejected(
    ifaces: Seq<IfaceModel>,
    name: Option<Seq<char>>,
    resolve: bool,
    open: Seq<OpenOutcome>,
    dns_ok: bool,
)
    requires
        forall|i: int| 0 <= i < ifaces.len() ==> !usable(#[trigger] ifaces[i]),
        name matches Some(n) ==> crate::iface::has_named(ifaces, n),
    ensures
        bootstrap_model(ifaces, name, resolve, open, dns_ok) == Err::<PlanModel, _>(
            BootstrapFailure::NoUsableInterfaces,
        ),
{
    match name {
        Some(n) => {
            lemma_first_match_finds(ifaces, n);
            lemma_first_match_sound(ifaces, n);
        },
        None => {
            lemma_usable_indices_sound(ifaces);
            if usable_indices(ifaces).len() > 0 {
                assert(usable(ifaces[usable_indices(ifaces)[0]]));
            }
        },
    }
}

/// The verdict over a wholly failed acquisition: when every recorded
/// failure is permission-denied, the permission failure is reported; when
/// none is, the generic no-usable-interfaces failure is.
pub proof fn lemma_failure_classification(outcomes: Seq<OpenOutcome>)
    requires
        forall|i: int| 0 <= i < outcomes.len() ==> !((#[trigger] outcomes[i]) is Opened),
    ensures
        outcomes.len() > 0 && (forall|i: int|
            0 <= i < outcomes.len() ==> (#[trigger] outcomes[i]) == OpenOutcome::Failed(
                OpenErrorKind::PermissionDenied,
            )) ==> failure_verdict(outcomes) == BootstrapFailure::InsufficientPermissions,
        (forall|i: int|
            0 <= i < outcomes.len() ==> (#[trigger] outcomes[i]) != OpenOutcome::Failed(
                OpenErrorKind::PermissionDenied,
            )) ==> failure_verdict(outcomes) == BootstrapFailure::NoUsableInterfaces,
{
    if outcomes.len() > 0 && (forall|i: int|
        0 <= i < outcomes.len() ==> (#[trigger] outcomes[i]) == OpenOutcome::Failed(
            OpenErrorKind::PermissionDenied,
        )) {
        assert(outcomes[0] == OpenOutcome::Failed(OpenErrorKind::PermissionDenied));
        assert(any_permission_failure(outcomes));
    }
    if forall|i: int|
        0 <= i < outcomes.len() ==> (#[trigger] outcomes[i]) != OpenOutcome::Failed(
            OpenErrorKind::PermissionDenied,
        ) {
        if any_permission_failure(outcomes) {
            let i = choose|i: int|
                0 <= i < outcomes.len() && (#[trigger] outcomes[i]) == OpenOutcome::Failed(
                    OpenErrorKind::PermissionDenied,
                );
            assert(false);
        }
    }
}

/// Every successful bootstrap pairs interfaces and channels one to one:
/// the two sequences have equal length, are never empty, and element `j`
/// of one belongs to element `j` of the other — a usable interface whose
/// open outcome carries a channel.
pub proof fn lemma_bundle_pairing(
    ifaces: Seq<IfaceModel>,
    name: Option<Seq<char>>,
    resolve: bool,
    open: Seq<OpenOutcome>,
    dns_ok: bool,
)
    requires
        bootstrap_model(ifaces, name, resolve, open, dns_ok) is Ok,
    ensures
        ({
            let p = bootstrap_model(ifaces, name, resolve, open, dns_ok)->Ok_0;
            &&& p.interfaces.len() == p.channels.len()
            &&& p.channels.len() > 0
            &&& forall|j: int|
                0 <= j < p.channels.len() ==> 0 <= (#[trigger] p.channels[j]) < ifaces.len()
                    && p.interfaces[j] == ifaces[p.channels[j]] && open[p.channels[j]] is Opened
                    && usable(ifaces[p.channels[j]])
        }),
{
    lemma_candidates_sound(ifaces, name);
    let cands = candidates_model(ifaces, name)->Ok_0;
    let sub = Seq::new(cands.len(), |k: int| open[cands[k]]);
    let pos = opened_positions(sub);
    lemma_opened_positions_sound(sub);
    let p = bootstrap_model(ifaces, name, resolve, open, dns_ok)->Ok_0;
    assert forall|j: int| 0 <= j < p.channels.len() implies 0 <= (#[trigger] p.channels[j])
        < ifaces.len() && p.interfaces[j] == ifaces[p.channels[j]] && open[p.channels[j]] is Opened
        && usable(ifaces[p.channels[j]]) by {
        assert(p.channels[j] == cands[pos[j]]);
        assert(0 <= pos[j] < cands.len());
        assert(sub[pos[j]] is Opened);
    }
}

/// Resolution-disabled bootstrap never attempts DNS construction: its
/// outcome is the same whether or not a resolver could have been built.
pub proof fn lemma_resolution_disabled_ignores_dns(
    ifaces: Seq<IfaceModel>,
    name: Option<Seq<char>>,
    open: Seq<OpenOutcome>,
    dns_a: bool,
    dns_b: bool,
)
    ensures
        bootstrap_model(ifaces, name, false, open, dns_a) == bootstrap_model(
            ifaces,
            name,
            false,
            open,
            dns_b,
        ),
{
}

/// The documented ordering of DNS against channel acquisition: with
/// resolution requested and the resolver down, a bootstrap whose channel
/// stage succeeds reports the DNS failure, and one whose channel stage
/// fails reports that channel failure — DNS never masks it.
pub proof fn lemma_dns_failure_ordering(
    ifaces: Seq<IfaceModel>,
    name: Option<Seq<char>>,
    open: Seq<OpenOutcome>,
)
    ensures
        bootstrap_model(ifaces, name, false, open, false) is Ok ==> bootstrap_model(
            ifaces,
            name,
            true,
            open,
            false,
        ) == Err::<PlanModel, _>(BootstrapFailure::DnsUnavailable),
        bootstrap_model(ifaces, name, false, open, false) matches Err(f) ==> bootstrap_model(
            ifaces,
            name,
            true,
            open,
            false,
        ) == Err::<PlanModel, _>(f),
{
}

} // verus!
