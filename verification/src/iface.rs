//! The interface directory's data: immutable snapshots of host network
//! interfaces, the up-and-addressed usability filter, and name lookup in
//! discovery order.

use vstd::prelude::*;
use crate::errors::{BootstrapError, BootstrapFailure};

verus! {

/// An immutable snapshot of one host network interface, taken at discovery
/// time and never refreshed during a run.
#[derive(Debug)]
pub struct IfaceInfo {
    /// The OS-level interface name.
    pub name: String,
    /// Administrative state: whether the interface is up.
    pub is_up: bool,
    /// Textual forms of the IP addresses assigned to the interface.
    pub ips: Vec<String>,
}

/// The mathematical shape of an interface snapshot.
pub struct IfaceModel {
    pub name: Seq<char>,
    pub is_up: bool,
    pub ips: Seq<Seq<char>>,
}

impl View for IfaceInfo {
    type V = IfaceModel;

    open spec fn view(&self) -> IfaceModel {
        IfaceModel { name: self.name@, is_up: self.is_up, ips: self.ips.deep_view() }
    }
}

impl DeepView for IfaceInfo {
    type V = IfaceModel;

    open spec fn deep_view(&self) -> IfaceModel {
        self.view()
    }
}

impl Clone for IfaceInfo {
    /// A clone is the same snapshot.
    fn clone(&self) -> (r: Self)
        ensures
            r@ == self@,
    {
        let r = IfaceInfo { name: self.name.clone(), is_up: self.is_up, ips: self.ips.clone() };
        proof {
            assert(r.ips.deep_view() =~= self.ips.deep_view());
        }
        r
    }
}

/// An interface is usable when it is administratively up and has at least
/// one assigned address. Unusable interfaces are silently excluded.
pub open spec fn usable(i: IfaceModel) -> bool {
    i.is_up && i.ips.len() > 0
}

/// Decides the usability filter for one interface snapshot.
pub fn is_usable(i: &IfaceInfo) -> (r: bool)
    ensures
        r == usable(i@),
{
    i.is_up && i.ips.len() > 0
}

/// The position of the first interface bearing `name`, in discovery order.
pub open spec fn first_match(ifaces: Seq<IfaceModel>, name: Seq<char>) -> Option<int>
    decreases ifaces.len(),
{
    if ifaces.len() == 0 {
        None
    } else if ifaces[0].name == name {
        Some(0int)
    } else {
        match first_match(ifaces.drop_first(), name) {
            Some(j) => Some(j + 1),
            None => None,
        }
    }
}

/// Whether some interface in the directory bears `name`.
pub open spec fn has_named(ifaces: Seq<IfaceModel>, name: Seq<char>) -> bool {
    exists|i: int| 0 <= i < ifaces.len() && (#[trigger] ifaces[i].name) == name
}

pub proof fn lemma_first_match_sound(ifaces: Seq<IfaceModel>, name: Seq<char>)
    ensures
        first_match(ifaces, name) matches Some(j) ==> 0 <= j < ifaces.len() && ifaces[j].name
            == name,
    decreases ifaces.len(),
{
    if ifaces.len() > 0 && ifaces[0].name != name {
        lemma_first_match_sound(ifaces.drop_first(), name);
    }
}

pub proof fn lemma_first_match_finds(ifaces: Seq<IfaceModel>, name: Seq<char>)
    requires
        has_named(ifaces, name),
    ensures
        first_match(ifaces, name) is Some,
    decreases ifaces.len(),
{
    if ifaces.len() > 0 && ifaces[0].name != name {
        let i = choose|i: int| 0 <= i < ifaces.len() && (#[trigger] ifaces[i].name) == name;
        assert(i > 0);
        assert(ifaces.drop_first()[i - 1].name == name);
        lemma_first_match_finds(ifaces.drop_first(), name);
    }
}

pub proof fn lemma_first_match_at(ifaces: Seq<IfaceModel>, name: Seq<char>, i: int)
    requires
        0 <= i < ifaces.len(),
        ifaces[i].name == name,
        forall|k: int| 0 <= k < i ==> #[trigger] ifaces[k].name != name,
    ensures
        first_match(ifaces, name) == Some(i),
    decreases i,
{
    if i > 0 {
        lemma_first_match_at(ifaces.drop_first(), name, i - 1);
    }
}

pub proof fn lemma_first_match_none(ifaces: Seq<IfaceModel>, name: Seq<char>)
    requires
        !has_named(ifaces, name),
    ensures
        first_match(ifaces, name) is None,
    decreases ifaces.len(),
{
    if ifaces.len() > 0 {
        assert(ifaces[0].name != name);
        assert(forall|i: int|
            0 <= i < ifaces.drop_first().len() ==> #[trigger] ifaces.drop_first()[i].name
                != name) by {
            assert(forall|i: int|
                0 <= i < ifaces.drop_first().len() ==> ifaces.drop_first()[i] == ifaces[i + 1]);
        }
        lemma_first_match_none(ifaces.drop_first(), name);
    }
}

/// Looks the named interface up in the directory, returning the position of
/// the first snapshot bearing the name, in discovery order.
pub fn find_interface(ifaces: &Vec<IfaceInfo>, name: &String) -> (r: Option<usize>)
    ensures
        match r {
            Some(j) => j < ifaces.len() && first_match(ifaces.deep_view(), name@) == Some(
                j as int,
            ),
            None => !has_named(ifaces.deep_view(), name@),
        },
{
    let ghost ds = ifaces.deep_view();
    let mut i: usize = 0;
    while i < ifaces.len()
        invariant
            0 <= i <= ifaces.len(),
            ds == ifaces.deep_view(),
            ds.len() == ifaces.len(),
            forall|k: int| 0 <= k < i ==> #[trigger] ds[k].name != name@,
        decreases ifaces.len() - i,
    {
        if ifaces[i].name == *name {
            proof {
                lemma_first_match_at(ds, name@, i as int);
            }
            return Some(i);
        }
        i += 1;
    }
    proof {
        lemma_first_match_none(ds, name@);
    }
    None
}

/// The positions of the usable interfaces, ascending in discovery order.
pub open spec fn usable_indices(ifaces: Seq<IfaceModel>) -> Seq<int>
    decreases ifaces.len(),
{
    if ifaces.len() == 0 {
        Seq::empty()
    } else {
        let prefix = usable_indices(ifaces.drop_last());
        if usable(ifaces.last()) {
            prefix.push(ifaces.len() - 1)
        } else {
            prefix
        }
    }
}

pub proof fn lemma_usable_indices_sound(ifaces: Seq<IfaceModel>)
    ensures
        forall|k: int|
            0 <= k < usable_indices(ifaces).len() ==> 0 <= #[trigger] usable_indices(ifaces)[k]
                < ifaces.len() && usable(ifaces[usable_indices(ifaces)[k]]),
        forall|k1: int, k2: int|
            0 <= k1 < k2 < usable_indices(ifaces).len() ==> #[trigger] usable_indices(ifaces)[k1]
                < #[trigger] usable_indices(ifaces)[k2],
    decreases ifaces.len(),
{
    if ifaces.len() > 0 {
        let d = ifaces.drop_last();
        let p = usable_indices(d);
        lemma_usable_indices_sound(d);
        assert(forall|i: int| 0 <= i < d.len() ==> #[trigger] d[i] == ifaces[i]);
        assert forall|k: int| 0 <= k < usable_indices(ifaces).len() implies 0 <= #[trigger] usable_indices(
            ifaces,
        )[k] < ifaces.len() && usable(ifaces[usable_indices(ifaces)[k]]) by {
            if k < p.len() {
                assert(usable_indices(ifaces)[k] == p[k]);
                assert(usable(d[p[k]]));
            } else {
                assert(usable(ifaces.last()));
                assert(usable_indices(ifaces)[k] == ifaces.len() - 1);
            }
        }
        assert forall|k1: int, k2: int|
            0 <= k1 < k2 < usable_indices(ifaces).len() implies #[trigger] usable_indices(
            ifaces,
        )[k1] < #[trigger] usable_indices(ifaces)[k2] by {
            if k2 < p.len() {
            } else {
                assert(usable_indices(ifaces)[k1] == p[k1]);
                assert(0 <= p[k1] < d.len());
            }
        }
    }
}

/// Which candidate interfaces a bootstrap considers: the named one alone
/// when a name was given (absence is an error), every interface otherwise;
/// in either mode filtered down to the usable ones.
pub open spec fn candidates_model(ifaces: Seq<IfaceModel>, name: Option<Seq<char>>) -> Result<
    Seq<int>,
    BootstrapFailure,
> {
    match name {
        Some(n) => match first_match(ifaces, n) {
            Some(j) => Ok(
                if usable(ifaces[j]) {
                    seq![j]
                } else {
                    Seq::empty()
                },
            ),
            None => Err(BootstrapFailure::InterfaceNotFound { name: n }),
        },
        None => Ok(usable_indices(ifaces)),
    }
}

pub proof fn lemma_candidates_sound(ifaces: Seq<IfaceModel>, name: Option<Seq<char>>)
    ensures
        candidates_model(ifaces, name) matches Ok(cs) ==> (forall|k: int|
            0 <= k < cs.len() ==> 0 <= (#[trigger] cs[k]) < ifaces.len() && usable(ifaces[cs[k]]))
            && (forall|k1: int, k2: int|
            0 <= k1 < k2 < cs.len() ==> (#[trigger] cs[k1]) < (#[trigger] cs[k2])),
{
    match name {
        Some(n) => {
            lemma_first_match_sound(ifaces, n);
        },
        None => {
            lemma_usable_indices_sound(ifaces);
        },
    }
}

/// The directory positions, as mathematical integers.
pub open spec fn as_int_seq(s: Seq<usize>) -> Seq<int> {
    s.map_values(|u: usize| u as int)
}

/// The name restriction, as a character sequence.
pub open spec fn name_view(name: Option<String>) -> Option<Seq<char>> {
    match name {
        Some(n) => Some(n@),
        None => None,
    }
}

/// Selects the candidate interfaces for a bootstrap: steps one and two of
/// the orchestration. Returns the candidates' positions in the directory,
/// ascending in discovery order, or the interface-not-found failure.
pub fn candidate_indices(ifaces: &Vec<IfaceInfo>, name: &Option<String>) -> (r: Result<
    Vec<usize>,
    BootstrapError,
>)
    ensures
        match r {
            Ok(idxs) => candidates_model(ifaces.deep_view(), name_view(*name)) == Ok::<
                Seq<int>,
                BootstrapFailure,
            >(as_int_seq(idxs@)),
            Err(e) => candidates_model(ifaces.deep_view(), name_view(*name)) == Err::<
                Seq<int>,
                BootstrapFailure,
            >(e@),
        },
{
    let ghost ds = ifaces.deep_view();
    match name {
        Some(n) => {
            match find_interface(ifaces, n) {
                Some(j) => {
                    proof {
                        assert(ds.len() == ifaces@.len());
                        assert(ds[j as int] == ifaces@[j as int].deep_view());
                    }
                    let mut idxs: Vec<usize> = Vec::new();
                    if is_usable(&ifaces[j]) {
                        idxs.push(j);
                        proof {
                            assert(as_int_seq(idxs@) =~= seq![j as int]);
                        }
                    } else {
                        proof {
                            assert(as_int_seq(idxs@) =~= Seq::<int>::empty());
                        }
                    }
                    Ok(idxs)
                },
                None => {
                    proof {
                        lemma_first_match_none(ds, n@);
                    }
                    Err(BootstrapError::InterfaceNotFound(n.clone()))
                },
            }
        },
        None => {
            let mut idxs: Vec<usize> = Vec::new();
            let mut i: usize = 0;
            while i < ifaces.len()
                invariant
                    0 <= i <= ifaces.len(),
                    ds == ifaces.deep_view(),
                    ds.len() == ifaces.len(),
                    as_int_seq(idxs@) == usable_indices(ds.take(i as int)),
                decreases ifaces.len() - i,
            {
                let ghost prev = idxs@;
                if is_usable(&ifaces[i]) {
                    idxs.push(i);
                    proof {
                        assert(as_int_seq(idxs@) =~= as_int_seq(prev).push(i as int));
                    }
                }
                proof {
                    assert(ds.take(i + 1).drop_last() =~= ds.take(i as int));
                    assert(ds.take(i + 1).last() == ds[i as int]);
                }
                i += 1;
            }
            proof {
                assert(ds.take(ds.len() as int) =~= ds);
            }
            Ok(idxs)
        },
    }
}

} // verus!
