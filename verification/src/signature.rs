//! The signature classifier: turns one method signature into a binding
//! descriptor, or reports the parameter that fits no recognized position.
//!
//! A signature is a run of receiver parameters (the owning instance and the
//! ambient world, in any order), followed by value parameters (passed through
//! directly when they take the dynamic value type, converted otherwise),
//! optionally closed by a single trailing slice of the remaining dynamic
//! arguments. Property accessors instead take an optional entity reference,
//! an optional numeric slot, and (for setters) exactly one value parameter.

use vstd::prelude::*;

verus! {

/// The declared type of one parameter, as far as classification reads it.
///
/// Method names and member names are interned symbols, represented by their
/// `u32` ids; numeric host types are represented by their 64-bit integer
/// encoding throughout.
#[derive(Clone, Copy, PartialEq, Eq, Structural, Debug)]
pub enum ParamTy {
    /// The owning instance, taken by value.
    SelfVal,
    /// The owning instance, by shared reference.
    SelfRef,
    /// The owning instance, by exclusive reference.
    SelfMut,
    /// The ambient world context, by shared reference.
    WorldRef,
    /// The ambient world context, by exclusive reference.
    WorldMut,
    /// The dynamic value type itself: passed through unconverted.
    Value,
    /// The slice of remaining dynamic arguments: the variadic tail.
    ValueSlice,
    /// An entity reference (a property accessor's instance parameter).
    Entity,
    /// A numeric slot index (a property accessor's array parameter).
    Index,
    /// A host numeric type: converted from the dynamic value.
    Num,
    /// A host boolean type: converted from the dynamic value.
    Bool,
    /// A host string type: converted from the dynamic value.
    Str,
}

/// The declared return type, as far as classification reads it.
#[derive(Clone, Copy, PartialEq, Eq, Structural, Debug)]
pub enum ReturnTy {
    /// No declared return type.
    Unit,
    /// A fallible wrapper around the returned value.
    Checked,
    /// Any other declared type.
    Other,
}

/// One method signature of a declaration site.
#[derive(Debug)]
pub struct Signature {
    /// The method's name, an interned symbol id.
    pub name: u32,
    /// The declared parameter types, in order.
    pub params: Vec<ParamTy>,
    /// The declared return type.
    pub ret: ReturnTy,
}

/// The mathematical shape of a `Signature`.
#[verifier::ext_equal]
pub ghost struct SigView {
    pub name: u32,
    pub params: Seq<ParamTy>,
    pub ret: ReturnTy,
}

impl View for Signature {
    type V = SigView;

    open spec fn view(&self) -> SigView {
        SigView { name: self.name, params: self.params@, ret: self.ret }
    }
}

/// An ambient execution context threaded into a call ahead of its arguments.
#[derive(Clone, Copy, PartialEq, Eq, Structural, Debug)]
pub enum Receiver {
    /// The owning instance.
    SelfContext,
    /// The shared world context.
    WorldContext,
}

/// How one value parameter receives its dynamic argument.
#[derive(Clone, Copy, PartialEq, Eq, Structural, Debug)]
pub enum ParamMode {
    /// The dynamic value is passed unchanged.
    Direct,
    /// The dynamic value is converted to the declared type, defaulting on
    /// conversion failure.
    Convert(ParamTy),
}

/// How a method's result is handed back to the caller.
#[derive(Clone, Copy, PartialEq, Eq, Structural, Debug)]
pub enum ReturnMode {
    /// The result is wrapped directly.
    Plain,
    /// The result must be unwrapped, propagating failure to the caller.
    Fallible,
}

/// What one classification or collection diagnostic reports.
#[derive(Clone, Copy, PartialEq, Eq, Structural, Debug)]
pub enum DiagKind {
    /// The parameter at this position fits no recognized position of the
    /// signature grammar.
    UnexpectedParameter(usize),
    /// A setter ends at this position without its required value parameter.
    MissingValue(usize),
    /// A property annotation lacks its target member name.
    MalformedAnnotation,
    /// A getter was already registered for the member name.
    DuplicateGetter,
    /// A setter was already registered for the member name.
    DuplicateSetter,
}

/// The accessor role a property signature is classified for.
#[derive(Clone, Copy, PartialEq, Eq, Structural, Debug)]
pub enum Role {
    Getter,
    Setter,
}

/// A classified native-function binding.
#[derive(Debug)]
pub struct FunctionBinding {
    /// The method's name, an interned symbol id.
    pub name: u32,
    /// The receiver prefix, in signature order.
    pub receivers: Vec<Receiver>,
    /// The value parameters' modes, in signature order.
    pub parameters: Vec<ParamMode>,
    /// Whether the final parameter takes the remaining dynamic arguments.
    pub variadic: bool,
    /// How the method's result is handed back.
    pub output: ReturnMode,
}

/// The mathematical shape of a `FunctionBinding`.
#[verifier::ext_equal]
pub ghost struct FunctionView {
    pub name: u32,
    pub receivers: Seq<Receiver>,
    pub parameters: Seq<ParamMode>,
    pub variadic: bool,
    pub output: ReturnMode,
}

impl View for FunctionBinding {
    type V = FunctionView;

    open spec fn view(&self) -> FunctionView {
        FunctionView {
            name: self.name,
            receivers: self.receivers@,
            parameters: self.parameters@,
            variadic: self.variadic,
            output: self.output,
        }
    }
}

/// A classified property accessor (one getter or setter side of a member).
#[derive(Debug)]
pub struct PropertyBinding {
    /// The accessor method's name, an interned symbol id.
    pub name: u32,
    /// The receiver prefix, in signature order.
    pub receivers: Vec<Receiver>,
    /// Whether the accessor takes an entity reference.
    pub entity: bool,
    /// Whether the accessor takes a numeric slot index.
    pub index: bool,
    /// The setter's value parameter mode; getters carry none.
    pub value: Option<ParamMode>,
}

/// The mathematical shape of a `PropertyBinding`.
#[verifier::ext_equal]
pub ghost struct PropertyView {
    pub name: u32,
    pub receivers: Seq<Receiver>,
    pub entity: bool,
    pub index: bool,
    pub value: Option<ParamMode>,
}

impl View for PropertyBinding {
    type V = PropertyView;

    open spec fn view(&self) -> PropertyView {
        PropertyView {
            name: self.name,
            receivers: self.receivers@,
            entity: self.entity,
            index: self.index,
            value: self.value,
        }
    }
}

/// Whether a declared parameter type is a receiver.
pub open spec fn is_receiver(p: ParamTy) -> bool {
    match p {
        ParamTy::SelfVal | ParamTy::SelfRef | ParamTy::SelfMut => true,
        ParamTy::WorldRef | ParamTy::WorldMut => true,
        _ => false,
    }
}

/// The execution context a receiver parameter stands for.
pub open spec fn receiver_of(p: ParamTy) -> Receiver
    recommends
        is_receiver(p),
{
    match p {
        ParamTy::SelfVal | ParamTy::SelfRef | ParamTy::SelfMut => Receiver::SelfContext,
        _ => Receiver::WorldContext,
    }
}

/// The mode a value parameter classifies as: the dynamic value type passes
/// through directly, every other declared type is converted.
pub open spec fn mode_of(p: ParamTy) -> ParamMode {
    if p is Value {
        ParamMode::Direct
    } else {
        ParamMode::Convert(p)
    }
}

/// The return mode a declared return type classifies as.
pub open spec fn return_mode_of(r: ReturnTy) -> ReturnMode {
    if r is Checked {
        ReturnMode::Fallible
    } else {
        ReturnMode::Plain
    }
}

/// The position at which the receiver run starting at `i` ends: the first
/// position at or after `i` holding no receiver, or the parameter count.
pub open spec fn recv_end(s: Seq<ParamTy>, i: int) -> int
    decreases s.len() - i,
{
    if i < 0 || i >= s.len() {
        s.len() as int
    } else if !is_receiver(s[i]) {
        i
    } else {
        recv_end(s, i + 1)
    }
}

/// The position at which the value-parameter run starting at `i` ends: the
/// first position at or after `i` holding the remaining-arguments slice type,
/// or the parameter count.
pub open spec fn run_end(s: Seq<ParamTy>, i: int) -> int
    decreases s.len() - i,
{
    if i < 0 || i >= s.len() {
        s.len() as int
    } else if s[i] is ValueSlice {
        i
    } else {
        run_end(s, i + 1)
    }
}

/// The receiver prefix of a parameter list, mapped to execution contexts.
pub open spec fn receivers_of(s: Seq<ParamTy>) -> Seq<Receiver> {
    s.subrange(0, recv_end(s, 0)).map_values(|p: ParamTy| receiver_of(p))
}

/// The value-parameter run of a parameter list, mapped to parameter modes.
pub open spec fn modes_of(s: Seq<ParamTy>) -> Seq<ParamMode> {
    s.subrange(recv_end(s, 0), run_end(s, recv_end(s, 0))).map_values(|p: ParamTy| mode_of(p))
}

/// Classification of a signature as a native function: the receiver prefix,
/// then the value-parameter run, then at most one remaining-arguments slice;
/// a parameter after the slice fits no recognized position.
pub open spec fn classify_function_view(s: SigView) -> Result<FunctionView, DiagKind> {
    let r = recv_end(s.params, 0);
    let j = run_end(s.params, r);
    if j == s.params.len() {
        Ok(
            FunctionView {
                name: s.name,
                receivers: receivers_of(s.params),
                parameters: modes_of(s.params),
                variadic: false,
                output: return_mode_of(s.ret),
            },
        )
    } else if j + 1 == s.params.len() {
        Ok(
            FunctionView {
                name: s.name,
                receivers: receivers_of(s.params),
                parameters: modes_of(s.params),
                variadic: true,
                output: return_mode_of(s.ret),
            },
        )
    } else {
        Err(DiagKind::UnexpectedParameter((j + 1) as usize))
    }
}

/// Classification of a signature as a property accessor: the receiver prefix,
/// then an optional entity reference, then an optional numeric slot; a getter
/// takes nothing further, a setter takes exactly one trailing value parameter.
pub open spec fn classify_property_view(s: SigView, role: Role) -> Result<PropertyView, DiagKind> {
    let r = recv_end(s.params, 0);
    let ent = r < s.params.len() && s.params[r] is Entity;
    let p1 = if ent { r + 1 } else { r };
    let idx = p1 < s.params.len() && s.params[p1] is Index;
    let p2 = if idx { p1 + 1 } else { p1 };
    let base = PropertyView {
        name: s.name,
        receivers: receivers_of(s.params),
        entity: ent,
        index: idx,
        value: None,
    };
    match role {
        Role::Getter => {
            if p2 == s.params.len() {
                Ok(base)
            } else {
                Err(DiagKind::UnexpectedParameter(p2 as usize))
            }
        },
        Role::Setter => {
            if p2 == s.params.len() {
                Err(DiagKind::MissingValue(p2 as usize))
            } else if p2 + 1 == s.params.len() {
                Ok(PropertyView { value: Some(mode_of(s.params[p2])), ..base })
            } else {
                Err(DiagKind::UnexpectedParameter((p2 + 1) as usize))
            }
        },
    }
}

/// The receiver run starting at `i` ends at `r` when everything from `i` up
/// to `r` is a receiver and `r` is the parameter count or holds none.
proof fn lemma_recv_end_from(s: Seq<ParamTy>, i: int, r: int)
    requires
        0 <= i <= r <= s.len(),
        forall|j: int| i <= j < r ==> is_receiver(s[j]),
        r < s.len() ==> !is_receiver(s[r]),
    ensures
        recv_end(s, i) == r,
    decreases r - i,
{
    if i < r {
        lemma_recv_end_from(s, i + 1, r);
    }
}

/// The value-parameter run starting at `i` ends at `r` when nothing from `i`
/// up to `r` is the remaining-arguments slice and `r` is the parameter count
/// or holds it.
proof fn lemma_run_end_from(s: Seq<ParamTy>, i: int, r: int)
    requires
        0 <= i <= r <= s.len(),
        forall|j: int| i <= j < r ==> !(s[j] is ValueSlice),
        r < s.len() ==> s[r] is ValueSlice,
    ensures
        run_end(s, i) == r,
    decreases r - i,
{
    if i < r {
        lemma_run_end_from(s, i + 1, r);
    }
}

/// Classification succeeds on every signature of the valid shape — a
/// receiver prefix, a run of value parameters, and an optional trailing
/// remaining-arguments slice — and reproduces the shape exactly: the
/// receiver order, the parameter mode sequence, and the variadic flag.
pub proof fn lemma_classify_valid_shape(
    name: u32,
    recvs: Seq<ParamTy>,
    run: Seq<ParamTy>,
    tail: Seq<ParamTy>,
    ret: ReturnTy,
)
    requires
        forall|i: int| 0 <= i < recvs.len() ==> is_receiver(#[trigger] recvs[i]),
        forall|i: int| 0 <= i < run.len() ==> !(#[trigger] run[i] is ValueSlice),
        run.len() > 0 ==> !is_receiver(run[0]),
        tail.len() == 0 || (tail.len() == 1 && tail[0] is ValueSlice),
    ensures
        classify_function_view(SigView { name, params: recvs + run + tail, ret })
            == Ok::<FunctionView, DiagKind>(
            FunctionView {
                name,
                receivers: recvs.map_values(|p: ParamTy| receiver_of(p)),
                parameters: run.map_values(|p: ParamTy| mode_of(p)),
                variadic: tail.len() > 0,
                output: return_mode_of(ret),
            },
        ),
{
    let s = recvs + run + tail;
    let nr = recvs.len() as int;
    let nv = run.len() as int;
    assert(forall|j: int| 0 <= j < nr ==> s[j] == recvs[j]);
    assert(forall|j: int| nr <= j < nr + nv ==> s[j] == run[j - nr]);
    assert(forall|j: int| nr + nv <= j < s.len() ==> s[j] == tail[j - nr - nv]);
    assert(forall|j: int| 0 <= j < nr ==> is_receiver(s[j]));
    lemma_recv_end_from(s, 0, nr);
    assert(forall|j: int| nr <= j < nr + nv ==> !(s[j] is ValueSlice));
    lemma_run_end_from(s, nr, nr + nv);
    assert(s.subrange(0, nr) =~= recvs);
    assert(s.subrange(nr, nr + nv) =~= run);
    let fv = classify_function_view(SigView { name, params: s, ret });
    assert(fv matches Ok(v) && v =~= (FunctionView {
        name,
        receivers: recvs.map_values(|p: ParamTy| receiver_of(p)),
        parameters: run.map_values(|p: ParamTy| mode_of(p)),
        variadic: tail.len() > 0,
        output: return_mode_of(ret),
    }));
}

/// Classification fails on every signature whose remaining-arguments slice
/// is followed by further parameters, and its diagnostic points at the first
/// parameter after the slice — the position that fits no recognized place in
/// the grammar.
pub proof fn lemma_classify_unexpected(
    name: u32,
    recvs: Seq<ParamTy>,
    run: Seq<ParamTy>,
    extra: Seq<ParamTy>,
    ret: ReturnTy,
)
    requires
        forall|i: int| 0 <= i < recvs.len() ==> is_receiver(#[trigger] recvs[i]),
        forall|i: int| 0 <= i < run.len() ==> !(#[trigger] run[i] is ValueSlice),
        run.len() > 0 ==> !is_receiver(run[0]),
        extra.len() > 0,
    ensures
        classify_function_view(
            SigView { name, params: recvs + run + seq![ParamTy::ValueSlice] + extra, ret },
        ) == Err::<FunctionView, DiagKind>(
            DiagKind::UnexpectedParameter((recvs.len() + run.len() + 1) as usize),
        ),
{
    let s = recvs + run + seq![ParamTy::ValueSlice] + extra;
    let nr = recvs.len() as int;
    let nv = run.len() as int;
    assert(forall|j: int| 0 <= j < nr ==> s[j] == recvs[j]);
    assert(forall|j: int| nr <= j < nr + nv ==> s[j] == run[j - nr]);
    assert(s[nr + nv] == ParamTy::ValueSlice);
    assert(forall|j: int| 0 <= j < nr ==> is_receiver(s[j]));
    lemma_recv_end_from(s, 0, nr);
    assert(forall|j: int| nr <= j < nr + nv ==> !(s[j] is ValueSlice));
    lemma_run_end_from(s, nr, nr + nv);
    assert(s.len() == nr + nv + 1 + extra.len());
}

/// Whether a declared parameter type is a receiver.
pub fn param_is_receiver(p: ParamTy) -> (b: bool)
    ensures
        b == is_receiver(p),
{
    match p {
        ParamTy::SelfVal | ParamTy::SelfRef | ParamTy::SelfMut => true,
        ParamTy::WorldRef | ParamTy::WorldMut => true,
        _ => false,
    }
}

/// Whether a declared parameter type is the remaining-arguments slice.
pub fn param_is_slice(p: ParamTy) -> (b: bool)
    ensures
        b == (p is ValueSlice),
{
    matches!(p, ParamTy::ValueSlice)
}

/// The execution context a receiver parameter stands for.
pub fn param_context(p: ParamTy) -> (r: Receiver)
    ensures
        is_receiver(p) ==> r == receiver_of(p),
{
    match p {
        ParamTy::SelfVal | ParamTy::SelfRef | ParamTy::SelfMut => Receiver::SelfContext,
        _ => Receiver::WorldContext,
    }
}

/// The mode a value parameter classifies as.
pub fn param_mode(p: ParamTy) -> (m: ParamMode)
    ensures
        m == mode_of(p),
{
    if matches!(p, ParamTy::Value) {
        ParamMode::Direct
    } else {
        ParamMode::Convert(p)
    }
}

/// Classifies one signature as a native function binding.
///
/// Succeeds exactly on signatures of the shape receivers, value parameters,
/// optional trailing slice; the descriptor reproduces the receiver order, the
/// parameter modes in order, and the variadic flag. Fails exactly when a
/// parameter follows the remaining-arguments slice, reporting that
/// parameter's position.
#[verifier::loop_isolation(false)]
pub fn classify_function(sig: &Signature) -> (r: Result<FunctionBinding, DiagKind>)
    ensures
        (match r {
            Ok(b) => classify_function_view(sig@) == Ok::<FunctionView, DiagKind>(b@),
            Err(d) => classify_function_view(sig@) == Err::<FunctionView, DiagKind>(d),
        }),
{
    let ghost s = sig@.params;
    let n = sig.params.len();
    let mut i: usize = 0;
    let mut receivers: Vec<Receiver> = Vec::new();
    while i < n && param_is_receiver(sig.params[i])
        invariant
            i <= n,
            recv_end(s, i as int) == recv_end(s, 0),
            receivers@ == s.subrange(0, i as int).map_values(|p: ParamTy| receiver_of(p)),
        decreases n - i,
    {
        receivers.push(param_context(sig.params[i]));
        i = i + 1;
    }
    let ghost r0 = recv_end(s, 0);
    assert(i as int == r0);
    let mut modes: Vec<ParamMode> = Vec::new();
    while i < n && !param_is_slice(sig.params[i])
        invariant
            r0 <= i <= n,
            run_end(s, i as int) == run_end(s, r0),
            modes@ == s.subrange(r0, i as int).map_values(|p: ParamTy| mode_of(p)),
        decreases n - i,
    {
        modes.push(param_mode(sig.params[i]));
        i = i + 1;
    }
    assert(i as int == run_end(s, r0));
    let variadic = i < n;
    if variadic {
        i = i + 1;
        if i < n {
            return Err(DiagKind::UnexpectedParameter(i));
        }
    }
    let output = match sig.ret {
        ReturnTy::Checked => ReturnMode::Fallible,
        _ => ReturnMode::Plain,
    };
    let b = FunctionBinding { name: sig.name, receivers, parameters: modes, variadic, output };
    proof {
        assert(classify_function_view(sig@) matches Ok(v) && v =~= b@);
    }
    Ok(b)
}

/// Classifies one signature as a property accessor for the given role.
///
/// Succeeds exactly on signatures of the shape receivers, optional entity
/// reference, optional numeric slot, and — for setters only — exactly one
/// trailing value parameter. Fails on any leftover parameter, reporting its
/// position, and on a setter whose value parameter is missing.
#[verifier::loop_isolation(false)]
pub fn classify_property(sig: &Signature, role: Role) -> (r: Result<PropertyBinding, DiagKind>)
    ensures
        (match r {
            Ok(b) => classify_property_view(sig@, role) == Ok::<PropertyView, DiagKind>(b@),
            Err(d) => classify_property_view(sig@, role) == Err::<PropertyView, DiagKind>(d),
        }),
{
    let ghost s = sig@.params;
    let n = sig.params.len();
    let mut i: usize = 0;
    let mut receivers: Vec<Receiver> = Vec::new();
    while i < n && param_is_receiver(sig.params[i])
        invariant
            i <= n,
            recv_end(s, i as int) == recv_end(s, 0),
            receivers@ == s.subrange(0, i as int).map_values(|p: ParamTy| receiver_of(p)),
        decreases n - i,
    {
        receivers.push(param_context(sig.params[i]));
        i = i + 1;
    }
    assert(i as int == recv_end(s, 0));
    let entity = i < n && matches!(sig.params[i], ParamTy::Entity);
    if entity {
        i = i + 1;
    }
    let index = i < n && matches!(sig.params[i], ParamTy::Index);
    if index {
        i = i + 1;
    }
    let base = PropertyBinding { name: sig.name, receivers, entity, index, value: None };
    match role {
        Role::Getter => {
            if i == n {
                proof {
                    assert(classify_property_view(sig@, role) matches Ok(v) && v =~= base@);
                }
                Ok(base)
            } else {
                Err(DiagKind::UnexpectedParameter(i))
            }
        },
        Role::Setter => {
            if i == n {
                Err(DiagKind::MissingValue(i))
            } else if i + 1 == n {
                let p = sig.params[i];
                let value = if matches!(p, ParamTy::Value) {
                    ParamMode::Direct
                } else {
                    ParamMode::Convert(p)
                };
                let b = PropertyBinding { value: Some(value), ..base };
                proof {
                    assert(classify_property_view(sig@, role) matches Ok(v) && v =~= b@);
                }
                Ok(b)
            } else {
                Err(DiagKind::UnexpectedParameter(i + 1))
            }
        },
    }
}

} // verus!
