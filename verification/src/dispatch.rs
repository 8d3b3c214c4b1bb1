//! The dispatch layer: a symbolic table mapping interned names to registered
//! entries, and the registration routine that populates it from a validated
//! binding set. Entries are only ever inserted during registration; the VM
//! reads the table thereafter.

use vstd::prelude::*;
use crate::bindings::BindingSet;
use crate::bindings::Declaration;
use crate::bindings::Diagnostic;
use crate::bindings::MemberView;
use crate::bindings::collect;
use crate::bindings::collect_view;
use crate::bindings::function_views;
use crate::bindings::member_views;
use crate::signature::FunctionBinding;
use crate::signature::FunctionView;
use crate::signature::PropertyBinding;
use crate::signature::PropertyView;

verus! {

/// One entry of the dispatch table.
pub enum Item {
    /// A native function: its trampoline descriptor, its fixed arity, and
    /// whether it takes the remaining arguments as a trailing slice.
    Native(FunctionBinding, usize, bool),
    /// A member: its optional getter and optional setter trampolines.
    Member(Option<PropertyBinding>, Option<PropertyBinding>),
}

/// The mathematical shape of an `Item`.
#[verifier::ext_equal]
pub ghost enum ItemView {
    Native { f: FunctionView, arity: nat, variadic: bool },
    Member { getter: Option<PropertyView>, setter: Option<PropertyView> },
}

impl View for Item {
    type V = ItemView;

    open spec fn view(&self) -> ItemView {
        match self {
            Item::Native(f, arity, variadic) => ItemView::Native {
                f: f@,
                arity: *arity as nat,
                variadic: *variadic,
            },
            Item::Member(getter, setter) => ItemView::Member {
                getter: (match getter {
                    Some(p) => Some(p@),
                    None => None,
                }),
                setter: (match setter {
                    Some(p) => Some(p@),
                    None => None,
                }),
            },
        }
    }
}

/// The entry a function binding registers.
pub open spec fn function_item(f: FunctionView) -> ItemView {
    ItemView::Native { f, arity: f.parameters.len(), variadic: f.variadic }
}

/// The entry a member registers.
pub open spec fn member_item(m: MemberView) -> ItemView {
    ItemView::Member { getter: m.getter, setter: m.setter }
}

/// The mapping an entry list stands for; a later entry under the same name
/// overwrites an earlier one.
pub open spec fn table_map(s: Seq<(u32, Item)>) -> Map<u32, ItemView>
    decreases s.len(),
{
    if s.len() == 0 {
        Map::empty()
    } else {
        table_map(s.drop_last()).insert(s.last().0, s.last().1@)
    }
}

/// Whether no two entries of a list share a name.
pub open spec fn unique_keys(s: Seq<(u32, Item)>) -> bool {
    forall|i: int, j: int| 0 <= i < j < s.len() ==> s[i].0 != s[j].0
}

/// The symbolic dispatch table: a mapping from interned name to entry.
pub struct DispatchTable {
    entries: Vec<(u32, Item)>,
}

impl View for DispatchTable {
    type V = Map<u32, ItemView>;

    closed spec fn view(&self) -> Map<u32, ItemView> {
        table_map(self.entries@)
    }
}

impl DispatchTable {
    /// The table keeps one entry per name.
    pub closed spec fn wf(&self) -> bool {
        unique_keys(self.entries@)
    }

    /// An empty table.
    pub fn new() -> (r: Self)
        ensures
            r.wf(),
            r@ == Map::<u32, ItemView>::empty(),
    {
        DispatchTable { entries: Vec::new() }
    }

    /// Inserts an entry under a name, overwriting any entry the name held.
    #[verifier::loop_isolation(false)]
    pub fn insert(&mut self, name: u32, item: Item)
        requires
            old(self).wf(),
        ensures
            final(self).wf(),
            final(self)@ == old(self)@.insert(name, item@),
    {
        let ghost s0 = self.entries@;
        let mut idx: usize = 0;
        while idx < self.entries.len()
            invariant
                idx <= self.entries@.len(),
                self.entries@ == s0,
                forall|t: int| 0 <= t < idx ==> s0[t].0 != name,
            decreases self.entries@.len() - idx,
        {
            if self.entries[idx].0 == name {
                self.entries.set(idx, (name, item));
                proof {
                    assert(self.entries@ =~= s0.update(idx as int, (name, item)));
                    lemma_table_map_update(s0, idx as int, item);
                }
                return ;
            }
            idx = idx + 1;
        }
        self.entries.push((name, item));
        proof {
            assert(self.entries@.drop_last() =~= s0);
        }
    }

    /// The entry registered under a name, if any.
    #[verifier::loop_isolation(false)]
    pub fn get(&self, name: u32) -> (r: Option<&Item>)
        requires
            self.wf(),
        ensures
            (match r {
                Some(item) => self@.dom().contains(name) && self@[name] == item@,
                None => !self@.dom().contains(name),
            }),
    {
        proof {
            lemma_table_map_props(self.entries@);
        }
        let mut idx: usize = 0;
        while idx < self.entries.len()
            invariant
                idx <= self.entries@.len(),
                forall|t: int| 0 <= t < idx ==> self.entries@[t].0 != name,
            decreases self.entries@.len() - idx,
        {
            if self.entries[idx].0 == name {
                return Some(&self.entries[idx].1);
            }
            idx = idx + 1;
        }
        None
    }

    /// The number of registered entries.
    pub fn len(&self) -> (r: usize)
        requires
            self.wf(),
        ensures
            r == self@.dom().len(),
    {
        proof {
            lemma_table_map_props(self.entries@);
        }
        self.entries.len()
    }
}

/// Replacing the entry at a position keeps the rest of the mapping: with
/// unique names, the list maps as before but for the replaced name.
proof fn lemma_table_map_update(s: Seq<(u32, Item)>, idx: int, v: Item)
    requires
        0 <= idx < s.len(),
        unique_keys(s),
    ensures
        table_map(s.update(idx, (s[idx].0, v))) == table_map(s).insert(s[idx].0, v@),
    decreases s.len(),
{
    let k = s[idx].0;
    let t = s.update(idx, (k, v));
    if idx == s.len() - 1 {
        assert(t.drop_last() =~= s.drop_last());
        assert(table_map(s.drop_last()).insert(k, v@) =~= table_map(s.drop_last()).insert(
            k,
            s.last().1@,
        ).insert(k, v@));
    } else {
        lemma_table_map_update(s.drop_last(), idx, v);
        assert(s.drop_last()[idx] == s[idx]);
        assert(t.drop_last() =~= s.drop_last().update(idx, (k, v)));
        assert(t.last() == s.last());
        assert(s.last().0 != k);
        assert(table_map(s.drop_last()).insert(k, v@).insert(s.last().0, s.last().1@)
            =~= table_map(s.drop_last()).insert(s.last().0, s.last().1@).insert(k, v@));
    }
}

/// With unique names, an entry list maps exactly its names, one entry each:
/// the domain holds a name precisely when some entry carries it, that entry's
/// value is the mapped one, and the domain's size is the list's length.
proof fn lemma_table_map_props(s: Seq<(u32, Item)>)
    requires
        unique_keys(s),
    ensures
        table_map(s).dom().finite(),
        table_map(s).dom().len() == s.len(),
        forall|k: u32|
            table_map(s).dom().contains(k) <==> exists|i: int| 0 <= i < s.len() && s[i].0 == k,
        forall|i: int|
            0 <= i < s.len() ==> table_map(s).dom().contains(#[trigger] s[i].0) && table_map(
                s,
            )[s[i].0] == s[i].1@,
    decreases s.len(),
{
    if s.len() > 0 {
        lemma_table_map_props(s.drop_last());
        let m0 = table_map(s.drop_last());
        let k = s.last().0;
        if m0.dom().contains(k) {
            let i = choose|i: int| 0 <= i < s.drop_last().len() && s.drop_last()[i].0 == k;
            assert(s[i] == s.drop_last()[i]);
            assert(false);
        }
        assert(table_map(s).dom() =~= m0.dom().insert(k));
        assert forall|i: int| 0 <= i < s.len() implies table_map(s).dom().contains(
            #[trigger] s[i].0,
        ) && table_map(s)[s[i].0] == s[i].1@ by {
            if i < s.len() - 1 {
                assert(s.drop_last()[i] == s[i]);
                assert(s[i].0 != k);
            }
        }
        assert forall|key: u32| table_map(s).dom().contains(key) implies exists|i: int|
            0 <= i < s.len() && s[i].0 == key by {
            if key != k {
                let i = choose|i: int| 0 <= i < s.drop_last().len() && s.drop_last()[i].0 == key;
                assert(s[i] == s.drop_last()[i]);
            } else {
                assert(s[s.len() - 1].0 == key);
            }
        }
    }
}

/// The mapping after the function bindings are registered, in order.
pub open spec fn register_functions(m: Map<u32, ItemView>, fs: Seq<FunctionView>) -> Map<
    u32,
    ItemView,
>
    decreases fs.len(),
{
    if fs.len() == 0 {
        m
    } else {
        register_functions(m, fs.drop_last()).insert(
            fs.last().name,
            function_item(fs.last()),
        )
    }
}

/// The mapping after the members are registered, in order.
pub open spec fn register_members(m: Map<u32, ItemView>, ms: Seq<MemberView>) -> Map<u32, ItemView>
    decreases ms.len(),
{
    if ms.len() == 0 {
        m
    } else {
        register_members(m, ms.drop_last()).insert(ms.last().name, member_item(ms.last()))
    }
}

/// The mapping after a whole binding set is registered: every function
/// binding first, then every member, each inserted under its name.
pub open spec fn register_view(
    m: Map<u32, ItemView>,
    fs: Seq<FunctionView>,
    ms: Seq<MemberView>,
) -> Map<u32, ItemView> {
    register_members(register_functions(m, fs), ms)
}

/// The registration routine: populates a caller-supplied dispatch table with
/// one `Native` entry per function binding, carrying the binding's arity and
/// variadic flag, and one `Member` entry per member name.
#[verifier::loop_isolation(false)]
pub fn register(set: BindingSet, table: &mut DispatchTable)
    requires
        old(table).wf(),
    ensures
        final(table).wf(),
        final(table)@ == register_view(old(table)@, set@.functions, set@.members),
{
    let ghost origf = set@.functions;
    let ghost origm = set@.members;
    let BindingSet { mut functions, mut members } = set;
    let ghost nf = origf.len();
    while functions.len() > 0
        invariant
            functions@.len() <= nf,
            function_views(functions@) == origf.subrange(nf - functions@.len(), nf as int),
            table.wf(),
            table@ == register_functions(old(table)@, origf.take(nf - functions@.len())),
        decreases functions@.len(),
    {
        let ghost done = nf - functions@.len();
        let ghost fseq = functions@;
        let f = functions.remove(0);
        proof {
            assert(function_views(fseq) == origf.subrange(done, nf as int));
            assert(origf.subrange(done, nf as int)[0] == origf[done]);
            assert(function_views(fseq)[0] == f@);
            assert(f@ == origf[done]);
            assert forall|t: int| 0 <= t < functions@.len() implies function_views(functions@)[t]
                == origf.subrange(done + 1, nf as int)[t] by {
                assert(functions@[t] == fseq[t + 1]);
                assert(function_views(fseq)[t + 1] == origf.subrange(done, nf as int)[t + 1]);
            }
            assert(function_views(functions@) =~= origf.subrange(done + 1, nf as int));
            assert(origf.take(done + 1).drop_last() =~= origf.take(done));
        }
        let name = f.name;
        let variadic = f.variadic;
        let arity = f.parameters.len();
        table.insert(name, Item::Native(f, arity, variadic));
        proof {
            assert(table@ == register_functions(old(table)@, origf.take(done + 1)));
        }
    }
    proof {
        assert(origf.take(nf as int) =~= origf);
    }
    let ghost mbase = table@;
    let ghost nm = origm.len();
    while members.len() > 0
        invariant
            members@.len() <= nm,
            member_views(members@) == origm.subrange(nm - members@.len(), nm as int),
            table.wf(),
            table@ == register_members(mbase, origm.take(nm - members@.len())),
        decreases members@.len(),
    {
        let ghost done = nm - members@.len();
        let ghost mseq = members@;
        let m = members.remove(0);
        proof {
            assert(member_views(mseq) == origm.subrange(done, nm as int));
            assert(origm.subrange(done, nm as int)[0] == origm[done]);
            assert(member_views(mseq)[0] == m@);
            assert(m@ == origm[done]);
            assert forall|t: int| 0 <= t < members@.len() implies member_views(members@)[t]
                == origm.subrange(done + 1, nm as int)[t] by {
                assert(members@[t] == mseq[t + 1]);
                assert(member_views(mseq)[t + 1] == origm.subrange(done, nm as int)[t + 1]);
            }
            assert(member_views(members@) =~= origm.subrange(done + 1, nm as int));
            assert(origm.take(done + 1).drop_last() =~= origm.take(done));
        }
        let name = m.name;
        table.insert(name, Item::Member(m.getter, m.setter));
        proof {
            assert(table@ == register_members(mbase, origm.take(done + 1)));
        }
    }
    proof {
        assert(origm.take(nm as int) =~= origm);
    }
}

/// Registering function bindings whose names are fresh and pairwise distinct
/// adds exactly their entries: each binding's name maps to its entry, every
/// other name keeps its mapping, and the domain grows by the binding count.
proof fn lemma_register_functions_props(m: Map<u32, ItemView>, fs: Seq<FunctionView>)
    requires
        m.dom().finite(),
        forall|a: int, b: int| 0 <= a < b < fs.len() ==> fs[a].name != fs[b].name,
        forall|a: int| 0 <= a < fs.len() ==> !m.dom().contains(#[trigger] fs[a].name),
    ensures
        register_functions(m, fs).dom().finite(),
        register_functions(m, fs).dom().len() == m.dom().len() + fs.len(),
        forall|a: int|
            0 <= a < fs.len() ==> register_functions(m, fs).dom().contains(#[trigger] fs[a].name)
                && register_functions(m, fs)[fs[a].name] == function_item(fs[a]),
        forall|k: u32|
            #[trigger] m.dom().contains(k) ==> register_functions(m, fs).dom().contains(k)
                && register_functions(m, fs)[k] == m[k],
        forall|k: u32|
            !m.dom().contains(k) && (forall|a: int| 0 <= a < fs.len() ==> fs[a].name != k)
                ==> !(#[trigger] register_functions(m, fs).dom().contains(k)),
    decreases fs.len(),
{
    if fs.len() > 0 {
        lemma_register_functions_props(m, fs.drop_last());
        let r0 = register_functions(m, fs.drop_last());
        let r = register_functions(m, fs);
        let last = fs.last();
        assert(fs[fs.len() - 1] == last);
        assert(forall|a: int| 0 <= a < fs.drop_last().len() ==> fs.drop_last()[a] == fs[a]);
        assert(!r0.dom().contains(last.name));
        assert forall|a: int| 0 <= a < fs.len() implies r.dom().contains(#[trigger] fs[a].name)
            && r[fs[a].name] == function_item(fs[a]) by {
            if a < fs.len() - 1 {
                assert(fs.drop_last()[a] == fs[a]);
                assert(fs[a].name != last.name);
            }
        }
        assert forall|k: u32| m.dom().contains(k) implies r.dom().contains(k) && r[k] == m[k] by {
            assert(k != last.name);
            assert(r0.dom().contains(k) && r0[k] == m[k]);
            assert(r == r0.insert(last.name, function_item(last)));
            assert(r0.insert(last.name, function_item(last))[k] == r0[k]);
        }
        assert forall|k: u32|
            !m.dom().contains(k) && (forall|a: int| 0 <= a < fs.len() ==> fs[a].name != k)
                implies !r.dom().contains(k) by {
            assert(forall|a: int| 0 <= a < fs.drop_last().len() ==> fs.drop_last()[a].name != k);
            assert(!r0.dom().contains(k));
            assert(fs[fs.len() - 1].name != k);
        }
    }
}

/// Registering members whose names are fresh and pairwise distinct adds
/// exactly their entries, exactly as function bindings do.
proof fn lemma_register_members_props(m: Map<u32, ItemView>, ms: Seq<MemberView>)
    requires
        m.dom().finite(),
        forall|a: int, b: int| 0 <= a < b < ms.len() ==> ms[a].name != ms[b].name,
        forall|a: int| 0 <= a < ms.len() ==> !m.dom().contains(#[trigger] ms[a].name),
    ensures
        register_members(m, ms).dom().finite(),
        register_members(m, ms).dom().len() == m.dom().len() + ms.len(),
        forall|a: int|
            0 <= a < ms.len() ==> register_members(m, ms).dom().contains(#[trigger] ms[a].name)
                && register_members(m, ms)[ms[a].name] == member_item(ms[a]),
        forall|k: u32|
            #[trigger] m.dom().contains(k) ==> register_members(m, ms).dom().contains(k)
                && register_members(m, ms)[k] == m[k],
        forall|k: u32|
            !m.dom().contains(k) && (forall|a: int| 0 <= a < ms.len() ==> ms[a].name != k)
                ==> !(#[trigger] register_members(m, ms).dom().contains(k)),
    decreases ms.len(),
{
    if ms.len() > 0 {
        lemma_register_members_props(m, ms.drop_last());
        let r0 = register_members(m, ms.drop_last());
        let r = register_members(m, ms);
        let last = ms.last();
        assert(ms[ms.len() - 1] == last);
        assert(forall|a: int| 0 <= a < ms.drop_last().len() ==> ms.drop_last()[a] == ms[a]);
        assert(!r0.dom().contains(last.name));
        assert forall|a: int| 0 <= a < ms.len() implies r.dom().contains(#[trigger] ms[a].name)
            && r[ms[a].name] == member_item(ms[a]) by {
            if a < ms.len() - 1 {
                assert(ms.drop_last()[a] == ms[a]);
                assert(ms[a].name != last.name);
            }
        }
        assert forall|k: u32| m.dom().contains(k) implies r.dom().contains(k) && r[k] == m[k] by {
            assert(k != last.name);
            assert(r0.dom().contains(k) && r0[k] == m[k]);
            assert(r == r0.insert(last.name, member_item(last)));
            assert(r0.insert(last.name, member_item(last))[k] == r0[k]);
        }
        assert forall|k: u32|
            !m.dom().contains(k) && (forall|a: int| 0 <= a < ms.len() ==> ms[a].name != k)
                implies !r.dom().contains(k) by {
            assert(forall|a: int| 0 <= a < ms.drop_last().len() ==> ms.drop_last()[a].name != k);
            assert(!r0.dom().contains(k));
            assert(ms[ms.len() - 1].name != k);
        }
    }
}

/// Round trip of a validated binding set through registration: on an empty
/// table, when the function names are pairwise distinct, the member names
/// are pairwise distinct, and no name stands in both lists, the resulting
/// mapping holds exactly one entry per function binding and one per member
/// name, each function entry carrying the originating descriptor's arity and
/// variadic flag, and nothing else.
pub proof fn lemma_register_round_trip(fs: Seq<FunctionView>, ms: Seq<MemberView>)
    requires
        forall|a: int, b: int| 0 <= a < b < fs.len() ==> fs[a].name != fs[b].name,
        forall|a: int, b: int| 0 <= a < b < ms.len() ==> ms[a].name != ms[b].name,
        forall|a: int, b: int|
            0 <= a < fs.len() && 0 <= b < ms.len() ==> fs[a].name != ms[b].name,
    ensures
        register_view(Map::empty(), fs, ms).dom().finite(),
        register_view(Map::empty(), fs, ms).dom().len() == fs.len() + ms.len(),
        forall|a: int|
            0 <= a < fs.len() ==> register_view(Map::empty(), fs, ms).dom().contains(
                #[trigger] fs[a].name,
            ) && register_view(Map::empty(), fs, ms)[fs[a].name] == function_item(fs[a]),
        forall|b: int|
            0 <= b < ms.len() ==> register_view(Map::empty(), fs, ms).dom().contains(
                #[trigger] ms[b].name,
            ) && register_view(Map::empty(), fs, ms)[ms[b].name] == member_item(ms[b]),
{
    let m0 = Map::<u32, ItemView>::empty();
    assert(m0.dom() =~= Set::<u32>::empty());
    lemma_register_functions_props(m0, fs);
    let m1 = register_functions(m0, fs);
    assert forall|b: int| 0 <= b < ms.len() implies !m1.dom().contains(
        #[trigger] ms[b].name,
    ) by {
        assert(!m0.dom().contains(ms[b].name));
        assert(forall|a: int| 0 <= a < fs.len() ==> fs[a].name != ms[b].name);
    }
    lemma_register_members_props(m1, ms);
}

/// Collects a declaration site's bindings and, when the whole site is free
/// of diagnostics, registers them; a site with any diagnostic fails with the
/// full list and registers nothing.
pub fn bind(decls: &Vec<Declaration>, table: &mut DispatchTable) -> (r: Result<
    (),
    Vec<Diagnostic>,
>)
    requires
        old(table).wf(),
    ensures
        final(table).wf(),
        ({
            let cv = collect_view(decls@.map_values(|d: Declaration| d@));
            match r {
                Ok(_) => {
                    &&& cv.diags.len() == 0
                    &&& final(table)@ == register_view(old(table)@, cv.functions, cv.members)
                },
                Err(ds) => {
                    &&& cv.diags.len() > 0
                    &&& ds@ == cv.diags
                    &&& final(table)@ == old(table)@
                },
            }
        }),
{
    match collect(decls) {
        Ok(bs) => {
            register(bs, table);
            Ok(())
        },
        Err(ds) => Err(ds),
    }
}

} // verus!
