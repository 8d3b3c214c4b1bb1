//! The declaration collector: walks a declaration site's annotated methods,
//! classifies each signature, partitions the results into the function list
//! and the member map, and accumulates every diagnostic of the whole pass.

use vstd::prelude::*;
use crate::signature::DiagKind;
use crate::signature::FunctionBinding;
use crate::signature::FunctionView;
use crate::signature::PropertyBinding;
use crate::signature::PropertyView;
use crate::signature::Role;
use crate::signature::Signature;
use crate::signature::SigView;
use crate::signature::classify_function;
use crate::signature::classify_function_view;
use crate::signature::classify_property;
use crate::signature::classify_property_view;

verus! {

/// The binding annotation carried by one method of a declaration site.
///
/// Property annotations carry their target member name, an interned symbol
/// id; a property annotation whose name argument was malformed carries none.
#[derive(Clone, Copy, PartialEq, Eq, Structural, Debug)]
pub enum Annotation {
    /// Expose the method as a native function.
    NativeFunction,
    /// Expose the method as the getter of the named member.
    Getter(Option<u32>),
    /// Expose the method as the setter of the named member.
    Setter(Option<u32>),
}

/// One method of a declaration site: its signature and, optionally, the one
/// binding annotation it carries. Methods without an annotation are skipped.
#[derive(Debug)]
pub struct Declaration {
    pub annotation: Option<Annotation>,
    pub sig: Signature,
}

/// The mathematical shape of a `Declaration`.
#[verifier::ext_equal]
pub ghost struct DeclView {
    pub annotation: Option<Annotation>,
    pub sig: SigView,
}

impl View for Declaration {
    type V = DeclView;

    open spec fn view(&self) -> DeclView {
        DeclView { annotation: self.annotation, sig: self.sig@ }
    }
}

/// One diagnostic of a collection pass: what went wrong, and at which
/// declaration of the site.
#[derive(Clone, Copy, PartialEq, Eq, Structural, Debug)]
pub struct Diagnostic {
    /// The position of the offending declaration in the site's list.
    pub decl: usize,
    /// What the diagnostic reports.
    pub kind: DiagKind,
}

/// A script-visible member: at most one getter and at most one setter,
/// registered under one name; a member without either side is never kept.
#[derive(Debug)]
pub struct Member {
    /// The member's name, an interned symbol id.
    pub name: u32,
    pub getter: Option<PropertyBinding>,
    pub setter: Option<PropertyBinding>,
}

/// The mathematical shape of a `Member`.
#[verifier::ext_equal]
pub ghost struct MemberView {
    pub name: u32,
    pub getter: Option<PropertyView>,
    pub setter: Option<PropertyView>,
}

impl View for Member {
    type V = MemberView;

    open spec fn view(&self) -> MemberView {
        MemberView {
            name: self.name,
            getter: (match self.getter {
                Some(p) => Some(p@),
                None => None,
            }),
            setter: (match self.setter {
                Some(p) => Some(p@),
                None => None,
            }),
        }
    }
}

/// The validated bindings of one declaration site.
#[derive(Debug)]
pub struct BindingSet {
    /// The function bindings, in declaration order.
    pub functions: Vec<FunctionBinding>,
    /// The members, in order of first declaration, with unique names.
    pub members: Vec<Member>,
}

/// The mathematical shape of a `BindingSet`.
#[verifier::ext_equal]
pub ghost struct BindingSetView {
    pub functions: Seq<FunctionView>,
    pub members: Seq<MemberView>,
}

impl View for BindingSet {
    type V = BindingSetView;

    open spec fn view(&self) -> BindingSetView {
        BindingSetView {
            functions: function_views(self.functions@),
            members: member_views(self.members@),
        }
    }
}

/// The function shapes of a function binding list.
pub open spec fn function_views(fs: Seq<FunctionBinding>) -> Seq<FunctionView> {
    fs.map_values(|f: FunctionBinding| f@)
}

/// The member shapes of a member list.
pub open spec fn member_views(ms: Seq<Member>) -> Seq<MemberView> {
    ms.map_values(|m: Member| m@)
}

/// Whether no two members of a list share a name.
pub open spec fn members_unique(ms: Seq<MemberView>) -> bool {
    forall|i: int, j: int| 0 <= i < j < ms.len() ==> ms[i].name != ms[j].name
}

/// The position of the member carrying the given name, or `-1` when the list
/// holds none.
pub open spec fn find_member(ms: Seq<MemberView>, n: u32) -> int
    decreases ms.len(),
{
    if ms.len() == 0 {
        -1
    } else if ms.last().name == n {
        ms.len() - 1
    } else {
        find_member(ms.drop_last(), n)
    }
}

/// A collection pass's running state: the bindings gathered so far and every
/// diagnostic reported so far.
#[verifier::ext_equal]
pub ghost struct CollectView {
    pub functions: Seq<FunctionView>,
    pub members: Seq<MemberView>,
    pub diags: Seq<Diagnostic>,
}

/// How one declaration advances a collection pass's state.
///
/// An unannotated method changes nothing. A native-function annotation
/// appends the classified binding, or the classification diagnostic. A
/// getter or setter annotation classifies the accessor and files it under
/// its member name, creating the member on first sight and reporting a
/// duplicate-binding diagnostic when that side of the member exists already.
pub open spec fn collect_step(st: CollectView, d: DeclView, i: int) -> CollectView {
    match d.annotation {
        None => st,
        Some(Annotation::NativeFunction) => match classify_function_view(d.sig) {
            Ok(f) => CollectView { functions: st.functions.push(f), ..st },
            Err(k) => CollectView { diags: st.diags.push(Diagnostic { decl: i as usize, kind: k }), ..st },
        },
        Some(Annotation::Getter(name)) => match name {
            None => CollectView {
                diags: st.diags.push(Diagnostic { decl: i as usize, kind: DiagKind::MalformedAnnotation }),
                ..st
            },
            Some(n) => match classify_property_view(d.sig, Role::Getter) {
                Err(k) => CollectView { diags: st.diags.push(Diagnostic { decl: i as usize, kind: k }), ..st },
                Ok(p) => {
                    let j = find_member(st.members, n);
                    if j < 0 {
                        CollectView {
                            members: st.members.push(MemberView { name: n, getter: Some(p), setter: None }),
                            ..st
                        }
                    } else if st.members[j].getter is Some {
                        CollectView {
                            diags: st.diags.push(Diagnostic { decl: i as usize, kind: DiagKind::DuplicateGetter }),
                            ..st
                        }
                    } else {
                        CollectView {
                            members: st.members.update(j, MemberView { getter: Some(p), ..st.members[j] }),
                            ..st
                        }
                    }
                },
            },
        },
        Some(Annotation::Setter(name)) => match name {
            None => CollectView {
                diags: st.diags.push(Diagnostic { decl: i as usize, kind: DiagKind::MalformedAnnotation }),
                ..st
            },
            Some(n) => match classify_property_view(d.sig, Role::Setter) {
                Err(k) => CollectView { diags: st.diags.push(Diagnostic { decl: i as usize, kind: k }), ..st },
                Ok(p) => {
                    let j = find_member(st.members, n);
                    if j < 0 {
                        CollectView {
                            members: st.members.push(MemberView { name: n, getter: None, setter: Some(p) }),
                            ..st
                        }
                    } else if st.members[j].setter is Some {
                        CollectView {
                            diags: st.diags.push(Diagnostic { decl: i as usize, kind: DiagKind::DuplicateSetter }),
                            ..st
                        }
                    } else {
                        CollectView {
                            members: st.members.update(j, MemberView { setter: Some(p), ..st.members[j] }),
                            ..st
                        }
                    }
                },
            },
        },
    }
}

/// The state of a collection pass over a whole declaration list.
pub open spec fn collect_view(ds: Seq<DeclView>) -> CollectView
    decreases ds.len(),
{
    if ds.len() == 0 {
        CollectView { functions: Seq::empty(), members: Seq::empty(), diags: Seq::empty() }
    } else {
        collect_step(collect_view(ds.drop_last()), ds.last(), ds.len() - 1)
    }
}

/// The position of the member carrying the given name, when the names are
/// unique; `None` when the list holds none.
#[verifier::loop_isolation(false)]
fn find_member_index(members: &Vec<Member>, n: u32) -> (r: Option<usize>)
    requires
        members_unique(member_views(members@)),
    ensures
        (match r {
            Some(j) => {
                &&& j < members@.len()
                &&& member_views(members@)[j as int].name == n
                &&& find_member(member_views(members@), n) == j
            },
            None => {
                &&& find_member(member_views(members@), n) == -1
                &&& forall|t: int|
                    0 <= t < members@.len() ==> member_views(members@)[t].name != n
            },
        }),
{
    let ghost mv = member_views(members@);
    let mut j: usize = 0;
    while j < members.len()
        invariant
            j <= members@.len(),
            forall|t: int| 0 <= t < j ==> mv[t].name != n,
        decreases members@.len() - j,
    {
        if members[j].name == n {
            proof {
                lemma_find_member(mv, n);
                let f = find_member(mv, n);
                assert(mv[j as int].name == n);
                if f < 0 {
                    assert(mv[j as int].name != n);
                }
                if f < j {
                    assert(mv[f].name != mv[j as int].name);
                }
                if f > j {
                    assert(mv[j as int].name != mv[f].name);
                }
            }
            return Some(j);
        }
        j = j + 1;
    }
    proof {
        lemma_find_member(mv, n);
    }
    None
}

/// `find_member` names the position it returns: a non-negative result is a
/// position holding the name, and a negative result means no position does.
proof fn lemma_find_member(ms: Seq<MemberView>, n: u32)
    ensures
        find_member(ms, n) >= -1,
        find_member(ms, n) >= 0 ==> 0 <= find_member(ms, n) < ms.len() && ms[find_member(ms, n)].name == n,
        find_member(ms, n) < 0 ==> forall|i: int| 0 <= i < ms.len() ==> ms[i].name != n,
    decreases ms.len(),
{
    if ms.len() > 0 && ms.last().name != n {
        lemma_find_member(ms.drop_last(), n);
        if find_member(ms, n) >= 0 {
            assert(ms.drop_last()[find_member(ms, n)] == ms[find_member(ms, n)]);
        } else {
            assert forall|i: int| 0 <= i < ms.len() implies ms[i].name != n by {
                if i < ms.len() - 1 {
                    assert(ms.drop_last()[i] == ms[i]);
                } else {
                    assert(ms[i] == ms.last());
                }
            }
        }
    }
}

/// The diagnostic a declaration produces on its own, from classification or
/// a malformed annotation, independent of the bindings gathered before it.
pub open spec fn classification_diag(d: DeclView) -> Option<DiagKind> {
    match d.annotation {
        Some(Annotation::NativeFunction) => match classify_function_view(d.sig) {
            Err(k) => Some(k),
            Ok(_) => None,
        },
        Some(Annotation::Getter(name)) => match name {
            None => Some(DiagKind::MalformedAnnotation),
            Some(_) => match classify_property_view(d.sig, Role::Getter) {
                Err(k) => Some(k),
                Ok(_) => None,
            },
        },
        Some(Annotation::Setter(name)) => match name {
            None => Some(DiagKind::MalformedAnnotation),
            Some(_) => match classify_property_view(d.sig, Role::Setter) {
                Err(k) => Some(k),
                Ok(_) => None,
            },
        },
        None => None,
    }
}

/// The annotation that declares the given accessor role for a member name.
pub open spec fn role_annotation(role: Role, n: u32) -> Annotation {
    match role {
        Role::Getter => Annotation::Getter(Some(n)),
        Role::Setter => Annotation::Setter(Some(n)),
    }
}

/// The duplicate-binding diagnostic of the given accessor role.
pub open spec fn duplicate_kind(role: Role) -> DiagKind {
    match role {
        Role::Getter => DiagKind::DuplicateGetter,
        Role::Setter => DiagKind::DuplicateSetter,
    }
}

/// Whether the member at one position carries the given name with the given
/// accessor role filled.
pub open spec fn role_set_at(ms: Seq<MemberView>, n: u32, role: Role, j: int) -> bool {
    0 <= j < ms.len() && ms[j].name == n && (match role {
        Role::Getter => ms[j].getter is Some,
        Role::Setter => ms[j].setter is Some,
    })
}

/// Whether some member of a list carries the given name with the given
/// accessor role filled.
pub open spec fn member_role_set(ms: Seq<MemberView>, n: u32, role: Role) -> bool {
    exists|j: int| role_set_at(ms, n, role, j)
}

/// One step never discards a diagnostic: the diagnostics after it extend
/// those before it.
proof fn lemma_step_extends_diags(st: CollectView, d: DeclView, i: int)
    ensures
        collect_step(st, d, i).diags.len() >= st.diags.len(),
        forall|k: int|
            0 <= k < st.diags.len() ==> collect_step(st, d, i).diags[k] == st.diags[k],
{
}

/// One step never unsets an accessor: a member name with a role filled keeps
/// that role filled.
#[verifier::rlimit(50)]
proof fn lemma_step_keeps_role(st: CollectView, d: DeclView, i: int, n: u32, role: Role)
    requires
        member_role_set(st.members, n, role),
    ensures
        member_role_set(collect_step(st, d, i).members, n, role),
{
    let j0 = choose|j: int| role_set_at(st.members, n, role, j);
    assert(role_set_at(st.members, n, role, j0));
    let ms = collect_step(st, d, i).members;
    match d.annotation {
        Some(Annotation::Getter(name)) => match name {
            Some(m) => match classify_property_view(d.sig, Role::Getter) {
                Ok(p) => {
                    lemma_find_member(st.members, m);
                    let f = find_member(st.members, m);
                    if f < 0 {
                        assert(ms == st.members.push(
                            MemberView { name: m, getter: Some(p), setter: None },
                        ));
                        assert(ms[j0] == st.members[j0]);
                    } else if !(st.members[f].getter is Some) {
                        let upd = st.members.update(
                            f,
                            MemberView { getter: Some(p), ..st.members[f] },
                        );
                        assert(ms == upd);
                        if f == j0 {
                            assert(upd[j0].name == st.members[j0].name);
                            assert(upd[j0].setter == st.members[j0].setter);
                        } else {
                            assert(upd[j0] == st.members[j0]);
                        }
                    }
                },
                Err(_) => {},
            },
            None => {},
        },
        Some(Annotation::Setter(name)) => match name {
            Some(m) => match classify_property_view(d.sig, Role::Setter) {
                Ok(p) => {
                    lemma_find_member(st.members, m);
                    let f = find_member(st.members, m);
                    if f < 0 {
                        assert(ms[j0] == st.members[j0]);
                    } else if !(st.members[f].setter is Some) {
                        let upd = st.members.update(
                            f,
                            MemberView { setter: Some(p), ..st.members[f] },
                        );
                        assert(ms == upd);
                        if f == j0 {
                            assert(upd[j0].name == st.members[j0].name);
                            assert(upd[j0].getter == st.members[j0].getter);
                        } else {
                            assert(upd[j0] == st.members[j0]);
                        }
                    }
                },
                Err(_) => {},
            },
            None => {},
        },
        _ => {},
    }
    assert(role_set_at(ms, n, role, j0));
}

/// One step keeps the member names unique.
proof fn lemma_step_preserves_unique(st: CollectView, d: DeclView, i: int)
    requires
        members_unique(st.members),
    ensures
        members_unique(collect_step(st, d, i).members),
{
    let ms = collect_step(st, d, i).members;
    match d.annotation {
        Some(Annotation::Getter(name)) => match name {
            Some(n) => match classify_property_view(d.sig, Role::Getter) {
                Ok(_) => {
                    lemma_find_member(st.members, n);
                    assert forall|a: int, b: int| 0 <= a < b < ms.len() implies ms[a].name
                        != ms[b].name by {
                        if b < st.members.len() {
                            assert(st.members[a].name != st.members[b].name);
                        }
                    }
                },
                Err(_) => {},
            },
            None => {},
        },
        Some(Annotation::Setter(name)) => match name {
            Some(n) => match classify_property_view(d.sig, Role::Setter) {
                Ok(_) => {
                    lemma_find_member(st.members, n);
                    assert forall|a: int, b: int| 0 <= a < b < ms.len() implies ms[a].name
                        != ms[b].name by {
                        if b < st.members.len() {
                            assert(st.members[a].name != st.members[b].name);
                        }
                    }
                },
                Err(_) => {},
            },
            None => {},
        },
        _ => {},
    }
}

/// The member names of every collection state are unique.
proof fn lemma_collect_unique(ds: Seq<DeclView>)
    ensures
        members_unique(collect_view(ds).members),
    decreases ds.len(),
{
    if ds.len() > 0 {
        lemma_collect_unique(ds.drop_last());
        lemma_step_preserves_unique(collect_view(ds.drop_last()), ds.last(), ds.len() - 1);
    }
}

/// The diagnostics of a shorter prefix of the site stand, unchanged and in
/// place, in the diagnostics of any longer prefix.
proof fn lemma_collect_prefix_diags(ds: Seq<DeclView>, a: int, b: int)
    requires
        0 <= a <= b <= ds.len(),
    ensures
        collect_view(ds.take(b)).diags.len() >= collect_view(ds.take(a)).diags.len(),
        forall|k: int|
            0 <= k < collect_view(ds.take(a)).diags.len() ==> collect_view(ds.take(b)).diags[k]
                == collect_view(ds.take(a)).diags[k],
    decreases b - a,
{
    if a < b {
        lemma_collect_prefix_diags(ds, a, b - 1);
        assert(ds.take(b).drop_last() =~= ds.take(b - 1));
        lemma_step_extends_diags(collect_view(ds.take(b - 1)), ds[b - 1], b - 1);
    }
}

/// A member name keeps an accessor role filled through the rest of the pass.
proof fn lemma_collect_keeps_role(ds: Seq<DeclView>, a: int, b: int, n: u32, role: Role)
    requires
        0 <= a <= b <= ds.len(),
        member_role_set(collect_view(ds.take(a)).members, n, role),
    ensures
        member_role_set(collect_view(ds.take(b)).members, n, role),
    decreases b - a,
{
    if a < b {
        lemma_collect_keeps_role(ds, a, b - 1, n, role);
        assert(ds.take(b).drop_last() =~= ds.take(b - 1));
        lemma_step_keeps_role(collect_view(ds.take(b - 1)), ds[b - 1], b - 1, n, role);
    }
}

/// Processing an accessor declaration that classifies leaves the member name
/// with that accessor role filled, whether the declaration was the first of
/// its role, a duplicate, or the other side of an existing member.
proof fn lemma_step_sets_role(st: CollectView, d: DeclView, i: int, n: u32, role: Role)
    requires
        d.annotation == Some(role_annotation(role, n)),
        classify_property_view(d.sig, role) is Ok,
    ensures
        member_role_set(collect_step(st, d, i).members, n, role),
{
    lemma_find_member(st.members, n);
    let f = find_member(st.members, n);
    let ms = collect_step(st, d, i).members;
    if f < 0 {
        assert(role_set_at(ms, n, role, st.members.len() as int));
    } else {
        assert(role_set_at(ms, n, role, f));
    }
}

/// Every declaration whose classification fails contributes its diagnostic,
/// at the declaration's own position, to the pass's accumulated list: the
/// pass collects every problem of the site, it does not stop at the first.
pub proof fn lemma_collect_reports_all(ds: Seq<DeclView>, i: int, k: DiagKind)
    requires
        0 <= i < ds.len(),
        classification_diag(ds[i]) == Some(k),
    ensures
        collect_view(ds).diags.len() > 0,
        exists|t: int|
            0 <= t < collect_view(ds).diags.len() && collect_view(ds).diags[t] == (Diagnostic {
                decl: i as usize,
                kind: k,
            }),
{
    let st = collect_view(ds.take(i));
    assert(ds.take(i + 1).drop_last() =~= ds.take(i));
    let st1 = collect_view(ds.take(i + 1));
    assert(st1 == collect_step(st, ds[i], i));
    assert(st1.diags[st.diags.len() as int] == (Diagnostic { decl: i as usize, kind: k }));
    lemma_collect_prefix_diags(ds, i + 1, ds.len() as int);
    assert(ds.take(ds.len() as int) =~= ds);
    assert(collect_view(ds).diags[st.diags.len() as int] == (Diagnostic {
        decl: i as usize,
        kind: k,
    }));
}

/// Declaring a second getter (or a second setter) for a member name that
/// already has one fails the pass with a duplicate-binding diagnostic,
/// reported at the duplicate's position.
pub proof fn lemma_duplicate_accessor(ds: Seq<DeclView>, i: int, j: int, n: u32, role: Role)
    requires
        0 <= i < j < ds.len(),
        ds[i].annotation == Some(role_annotation(role, n)),
        ds[j].annotation == Some(role_annotation(role, n)),
        classify_property_view(ds[i].sig, role) is Ok,
        classify_property_view(ds[j].sig, role) is Ok,
    ensures
        collect_view(ds).diags.len() > 0,
        exists|t: int|
            0 <= t < collect_view(ds).diags.len() && collect_view(ds).diags[t] == (Diagnostic {
                decl: j as usize,
                kind: duplicate_kind(role),
            }),
{
    let st_i = collect_view(ds.take(i));
    assert(ds.take(i + 1).drop_last() =~= ds.take(i));
    let st_i1 = collect_view(ds.take(i + 1));
    assert(st_i1 == collect_step(st_i, ds[i], i));
    lemma_step_sets_role(st_i, ds[i], i, n, role);
    lemma_collect_keeps_role(ds, i + 1, j, n, role);
    let st_j = collect_view(ds.take(j));
    lemma_collect_unique(ds.take(j));
    assert(members_unique(st_j.members));
    assert(ds.take(j + 1).drop_last() =~= ds.take(j));
    let st_j1 = collect_view(ds.take(j + 1));
    assert(st_j1 == collect_step(st_j, ds[j], j));
    let j0 = choose|t: int| role_set_at(st_j.members, n, role, t);
    assert(role_set_at(st_j.members, n, role, j0));
    lemma_find_member(st_j.members, n);
    let f = find_member(st_j.members, n);
    assert(f >= 0);
    if f != j0 {
        if f < j0 {
            assert(st_j.members[f].name != st_j.members[j0].name);
        } else {
            assert(st_j.members[j0].name != st_j.members[f].name);
        }
    }
    assert(st_j1.diags[st_j.diags.len() as int] == (Diagnostic {
        decl: j as usize,
        kind: duplicate_kind(role),
    }));
    lemma_collect_prefix_diags(ds, j + 1, ds.len() as int);
    assert(ds.take(ds.len() as int) =~= ds);
    assert(collect_view(ds).diags[st_j.diags.len() as int] == (Diagnostic {
        decl: j as usize,
        kind: duplicate_kind(role),
    }));
}

/// Declaring one getter and one setter for the same member name succeeds
/// and yields a single member entry exposing both accessors.
pub proof fn lemma_getter_setter_share_member(gsig: SigView, ssig: SigView, n: u32)
    requires
        classify_property_view(gsig, Role::Getter) is Ok,
        classify_property_view(ssig, Role::Setter) is Ok,
    ensures
        ({
            let ds = seq![
                DeclView { annotation: Some(Annotation::Getter(Some(n))), sig: gsig },
                DeclView { annotation: Some(Annotation::Setter(Some(n))), sig: ssig },
            ];
            let cv = collect_view(ds);
            &&& cv.diags.len() == 0
            &&& cv.members.len() == 1
            &&& cv.members[0].name == n
            &&& cv.members[0].getter == Some(classify_property_view(gsig, Role::Getter)->Ok_0)
            &&& cv.members[0].setter == Some(classify_property_view(ssig, Role::Setter)->Ok_0)
        }),
{
    let ds = seq![
        DeclView { annotation: Some(Annotation::Getter(Some(n))), sig: gsig },
        DeclView { annotation: Some(Annotation::Setter(Some(n))), sig: ssig },
    ];
    let d0 = seq![DeclView { annotation: Some(Annotation::Getter(Some(n))), sig: gsig }];
    assert(ds.drop_last() =~= d0);
    assert(d0.drop_last() =~= Seq::<DeclView>::empty());
    let st0 = collect_view(d0);
    assert(st0 == collect_step(collect_view(Seq::<DeclView>::empty()), d0[0], 0));
    assert(st0.members.len() == 1 && st0.members[0].name == n);
    let st1 = collect_view(ds);
    assert(st1 == collect_step(st0, ds[1], 1));
    assert(find_member(st0.members, n) == 0);
}

/// Collects the bindings of one declaration site.
///
/// Every annotated method is classified; all classification and
/// duplicate-binding diagnostics of the whole site are accumulated, and the
/// pass fails with the full list whenever it is non-empty, so one pass
/// surfaces every problem at once. On success the function bindings stand in
/// declaration order and each member name maps to one member entry.
#[verifier::loop_isolation(false)]
pub fn collect(decls: &Vec<Declaration>) -> (r: Result<BindingSet, Vec<Diagnostic>>)
    ensures
        ({
            let cv = collect_view(decls@.map_values(|d: Declaration| d@));
            match r {
                Ok(bs) => {
                    &&& cv.diags.len() == 0
                    &&& bs@.functions == cv.functions
                    &&& bs@.members == cv.members
                    &&& members_unique(bs@.members)
                },
                Err(ds) => cv.diags.len() > 0 && ds@ == cv.diags,
            }
        }),
{
    let ghost ds = decls@.map_values(|d: Declaration| d@);
    let mut functions: Vec<FunctionBinding> = Vec::new();
    let mut members: Vec<Member> = Vec::new();
    let mut diags: Vec<Diagnostic> = Vec::new();
    let mut i: usize = 0;
    while i < decls.len()
        invariant
            i <= decls@.len(),
            collect_view(ds.take(i as int)) == (CollectView {
                functions: function_views(functions@),
                members: member_views(members@),
                diags: diags@,
            }),
            members_unique(member_views(members@)),
        decreases decls@.len() - i,
    {
        proof {
            assert(ds.take(i + 1).drop_last() =~= ds.take(i as int));
            assert(ds.take(i + 1).last() == ds[i as int]);
        }
        let ghost pre = collect_view(ds.take(i as int));
        let d = &decls[i];
        match &d.annotation {
            None => {},
            Some(Annotation::NativeFunction) => {
                match classify_function(&d.sig) {
                    Ok(f) => {
                        functions.push(f);
                        proof {
                            assert(function_views(functions@) =~= pre.functions.push(f@));
                        }
                    },
                    Err(k) => {
                        diags.push(Diagnostic { decl: i, kind: k });
                    },
                }
            },
            Some(Annotation::Getter(name)) => {
                match name {
                    None => {
                        diags.push(Diagnostic { decl: i, kind: DiagKind::MalformedAnnotation });
                    },
                    Some(n) => {
                        let n = *n;
                        match classify_property(&d.sig, Role::Getter) {
                            Err(k) => {
                                diags.push(Diagnostic { decl: i, kind: k });
                            },
                            Ok(p) => {
                                match find_member_index(&members, n) {
                                    None => {
                                        members.push(Member { name: n, getter: Some(p), setter: None });
                                        proof {
                                            assert(member_views(members@) =~= pre.members.push(
                                                MemberView { name: n, getter: Some(p@), setter: None },
                                            ));
                                        }
                                    },
                                    Some(j) => {
                                        if members[j].getter.is_some() {
                                            diags.push(Diagnostic { decl: i, kind: DiagKind::DuplicateGetter });
                                        } else {
                                            let m = members.remove(j);
                                            members.insert(j, Member { name: m.name, getter: Some(p), setter: m.setter });
                                            proof {
                                                assert(member_views(members@) =~= pre.members.update(
                                                    j as int,
                                                    MemberView { getter: Some(p@), ..pre.members[j as int] },
                                                ));
                                            }
                                        }
                                    },
                                }
                            },
                        }
                    },
                }
            },
            Some(Annotation::Setter(name)) => {
                match name {
                    None => {
                        diags.push(Diagnostic { decl: i, kind: DiagKind::MalformedAnnotation });
                    },
                    Some(n) => {
                        let n = *n;
                        match classify_property(&d.sig, Role::Setter) {
                            Err(k) => {
                                diags.push(Diagnostic { decl: i, kind: k });
                            },
                            Ok(p) => {
                                match find_member_index(&members, n) {
                                    None => {
                                        members.push(Member { name: n, getter: None, setter: Some(p) });
                                        proof {
                                            assert(member_views(members@) =~= pre.members.push(
                                                MemberView { name: n, getter: None, setter: Some(p@) },
                                            ));
                                        }
                                    },
                                    Some(j) => {
                                        if members[j].setter.is_some() {
                                            diags.push(Diagnostic { decl: i, kind: DiagKind::DuplicateSetter });
                                        } else {
                                            let m = members.remove(j);
                                            members.insert(j, Member { name: m.name, getter: m.getter, setter: Some(p) });
                                            proof {
                                                assert(member_views(members@) =~= pre.members.update(
                                                    j as int,
                                                    MemberView { setter: Some(p@), ..pre.members[j as int] },
                                                ));
                                            }
                                        }
                                    },
                                }
                            },
                        }
                    },
                }
            },
        }
        proof {
            assert(collect_view(ds.take(i + 1)) == (CollectView {
                functions: function_views(functions@),
                members: member_views(members@),
                diags: diags@,
            }));
        }
        i = i + 1;
    }
    proof {
        assert(ds.take(i as int) =~= ds);
    }
    if diags.len() == 0 {
        Ok(BindingSet { functions, members })
    } else {
        Err(diags)
    }
}

} // verus!
