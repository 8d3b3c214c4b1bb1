//! Trampoline argument threading: how a registered binding turns the VM's
//! dynamic arguments into the argument tuple of the underlying host method,
//! and how the method's result is handed back to the VM.
//!
//! A trampoline threads the binding's receivers first, then its positional
//! parameters in declared order — passed through directly, or converted with
//! the conversion defaulting on failure — and finally, for variadic
//! bindings, the slice of remaining arguments. A fallible method's failure
//! propagates to the caller unchanged; a plain result is wrapped directly.

use vstd::prelude::*;
use crate::signature::FunctionBinding;
use crate::signature::FunctionView;
use crate::signature::ParamMode;
use crate::signature::ParamTy;
use crate::signature::PropertyBinding;
use crate::signature::PropertyView;
use crate::signature::Receiver;
use crate::signature::ReturnMode;

verus! {

/// The VM's dynamic value: a number, or an interned string.
///
/// Numbers are represented by their 64-bit integer encoding; string values
/// carry the interned symbol id of their text, with id `0` standing for the
/// empty string.
#[derive(Clone, Copy, PartialEq, Eq, Structural, Debug)]
pub enum Value {
    Num(i64),
    Str(u32),
}

/// The failure a fallible host method hands to the VM's call path.
#[derive(Clone, Copy, PartialEq, Eq, Structural, Debug)]
pub struct ErrorKind {
    /// The failure's kind, as the VM's error taxonomy numbers it.
    pub code: u32,
}

/// One argument slot of the underlying host call, as a trampoline fills it.
#[derive(Clone, Copy, PartialEq, Eq, Structural, Debug)]
pub enum HostArg {
    /// The owning instance, threaded from the execution context.
    SelfCtx,
    /// The world context, threaded from the execution context.
    WorldCtx,
    /// A dynamic value passed through unconverted.
    Value(Value),
    /// A converted numeric argument.
    Num(i64),
    /// A converted boolean argument.
    Bool(bool),
    /// A converted string argument, as an interned symbol id.
    Str(u32),
    /// A converted entity reference.
    Entity(u32),
    /// A converted slot index.
    Index(usize),
    /// The default of a declared type the dynamic value cannot reach.
    Fallback,
}

/// The argument tuple a trampoline hands to the underlying host method: the
/// threaded slots in order and, for variadic bindings, the trailing slice of
/// remaining dynamic arguments.
#[derive(Debug)]
pub struct CallPlan {
    pub args: Vec<HostArg>,
    pub rest: Option<Vec<Value>>,
}

/// What the underlying host method returned: a plain value, or the outcome
/// of a fallible method.
#[derive(Clone, Copy, PartialEq, Eq, Debug)]
pub enum HostReturn {
    Plain(Value),
    Fallible(Result<Value, ErrorKind>),
}

/// The slot a receiver fills.
pub open spec fn ctx_arg(rc: Receiver) -> HostArg {
    match rc {
        Receiver::SelfContext => HostArg::SelfCtx,
        Receiver::WorldContext => HostArg::WorldCtx,
    }
}

/// The slots a receiver prefix fills, in order.
pub open spec fn ctx_args(rs: Seq<Receiver>) -> Seq<HostArg> {
    rs.map_values(|rc: Receiver| ctx_arg(rc))
}

/// Whether a dynamic value reaches a declared type: numbers reach the
/// numeric, boolean, entity and index types (entities and indexes only from
/// their unsigned range), and strings reach the string types.
pub open spec fn convertible(v: Value, t: ParamTy) -> bool {
    match t {
        ParamTy::Num | ParamTy::Bool => v is Num,
        ParamTy::Str => v is Str,
        ParamTy::Entity | ParamTy::Index => v matches Value::Num(i) && 0 <= i <= u32::MAX,
        _ => false,
    }
}

/// The default a declared type degrades to when conversion fails.
pub open spec fn host_default(t: ParamTy) -> HostArg {
    match t {
        ParamTy::Num => HostArg::Num(0),
        ParamTy::Bool => HostArg::Bool(false),
        ParamTy::Str => HostArg::Str(0),
        ParamTy::Entity => HostArg::Entity(0),
        ParamTy::Index => HostArg::Index(0),
        _ => HostArg::Fallback,
    }
}

/// Conversion of one dynamic value to a declared type: the converted value
/// when the value reaches the type, and the type's default otherwise.
pub open spec fn convert_view(v: Value, t: ParamTy) -> HostArg {
    if !convertible(v, t) {
        host_default(t)
    } else {
        match t {
            ParamTy::Num => HostArg::Num(v->Num_0),
            ParamTy::Bool => HostArg::Bool(v->Num_0 != 0),
            ParamTy::Str => HostArg::Str(v->Str_0),
            ParamTy::Entity => HostArg::Entity(v->Num_0 as u32),
            ParamTy::Index => HostArg::Index(v->Num_0 as usize),
            _ => HostArg::Fallback,
        }
    }
}

/// The slot one positional parameter fills from its dynamic argument.
pub open spec fn param_arg(m: ParamMode, v: Value) -> HostArg {
    match m {
        ParamMode::Direct => HostArg::Value(v),
        ParamMode::Convert(t) => convert_view(v, t),
    }
}

/// The threaded slots of a function call: receivers first, then each
/// positional parameter's slot from the dynamic argument at its position.
pub open spec fn function_call_args(f: FunctionView, args: Seq<Value>) -> Seq<HostArg> {
    ctx_args(f.receivers) + Seq::new(f.parameters.len(), |i: int| param_arg(f.parameters[i], args[i]))
}

/// The threaded slots of a getter call: receivers, then the entity reference
/// when the accessor takes one, then the slot index when it takes one. A
/// slot value handed to an accessor that takes none is ignored.
pub open spec fn getter_call_args(p: PropertyView, entity: u32, index: usize) -> Seq<HostArg> {
    ctx_args(p.receivers) + (if p.entity {
        seq![HostArg::Entity(entity)]
    } else {
        Seq::empty()
    }) + (if p.index {
        seq![HostArg::Index(index)]
    } else {
        Seq::empty()
    })
}

/// The threaded slots of a setter call: the getter slots, then the value
/// parameter's slot from the assigned dynamic value.
pub open spec fn setter_call_args(p: PropertyView, entity: u32, index: usize, v: Value) -> Seq<
    HostArg,
> {
    getter_call_args(p, entity, index) + (match p.value {
        Some(m) => seq![param_arg(m, v)],
        None => Seq::empty(),
    })
}

/// Converts one dynamic value to a declared parameter type, degrading to the
/// type's default when the value cannot reach it.
pub fn convert(v: Value, t: ParamTy) -> (r: HostArg)
    ensures
        r == convert_view(v, t),
{
    match t {
        ParamTy::Num => match v {
            Value::Num(i) => HostArg::Num(i),
            _ => HostArg::Num(0),
        },
        ParamTy::Bool => match v {
            Value::Num(i) => HostArg::Bool(i != 0),
            _ => HostArg::Bool(false),
        },
        ParamTy::Str => match v {
            Value::Str(s) => HostArg::Str(s),
            _ => HostArg::Str(0),
        },
        ParamTy::Entity => match v {
            Value::Num(i) => {
                if 0 <= i && i <= u32::MAX as i64 {
                    HostArg::Entity(i as u32)
                } else {
                    HostArg::Entity(0)
                }
            },
            _ => HostArg::Entity(0),
        },
        ParamTy::Index => match v {
            Value::Num(i) => {
                if 0 <= i && i <= u32::MAX as i64 {
                    HostArg::Index(i as u32 as usize)
                } else {
                    HostArg::Index(0)
                }
            },
            _ => HostArg::Index(0),
        },
        _ => HostArg::Fallback,
    }
}

/// The slot a receiver fills.
pub fn receiver_arg(rc: Receiver) -> (r: HostArg)
    ensures
        r == ctx_arg(rc),
{
    match rc {
        Receiver::SelfContext => HostArg::SelfCtx,
        Receiver::WorldContext => HostArg::WorldCtx,
    }
}

/// Builds a function trampoline's call: receivers threaded first, then the
/// positional arguments in declared order — direct ones unchanged, converted
/// ones defaulting on failure — and, for a variadic binding, the remaining
/// arguments beyond the fixed arity as the trailing slice.
///
/// The dynamic argument list must carry the binding's fixed arity exactly,
/// or at least it when the binding is variadic; the VM validates the count
/// against the registered arity before invoking a trampoline.
#[verifier::loop_isolation(false)]
pub fn prepare_call(b: &FunctionBinding, args: &Vec<Value>) -> (p: CallPlan)
    requires
        b.variadic ==> args@.len() >= b.parameters@.len(),
        !b.variadic ==> args@.len() == b.parameters@.len(),
    ensures
        p.args@ == function_call_args(b@, args@),
        b.variadic ==> (p.rest matches Some(rest) && rest@ == args@.subrange(
            b.parameters@.len() as int,
            args@.len() as int,
        )),
        !b.variadic ==> p.rest is None,
{
    let mut out: Vec<HostArg> = Vec::new();
    let nr = b.receivers.len();
    let mut i: usize = 0;
    while i < nr
        invariant
            i <= nr,
            out@ == ctx_args(b.receivers@.subrange(0, i as int)),
        decreases nr - i,
    {
        out.push(receiver_arg(b.receivers[i]));
        proof {
            assert(out@ =~= ctx_args(b.receivers@.subrange(0, i + 1)));
        }
        i = i + 1;
    }
    proof {
        assert(b.receivers@.subrange(0, nr as int) =~= b.receivers@);
    }
    let arity = b.parameters.len();
    let mut j: usize = 0;
    while j < arity
        invariant
            j <= arity,
            out@ == ctx_args(b.receivers@) + Seq::new(
                j as nat,
                |t: int| param_arg(b.parameters@[t], args@[t]),
            ),
        decreases arity - j,
    {
        let a = match b.parameters[j] {
            ParamMode::Direct => HostArg::Value(args[j]),
            ParamMode::Convert(t) => convert(args[j], t),
        };
        out.push(a);
        proof {
            assert(out@ =~= ctx_args(b.receivers@) + Seq::new(
                (j + 1) as nat,
                |t: int| param_arg(b.parameters@[t], args@[t]),
            ));
        }
        j = j + 1;
    }
    proof {
        assert(out@ =~= function_call_args(b@, args@));
    }
    let rest = if b.variadic {
        let mut tail: Vec<Value> = Vec::new();
        let mut k = arity;
        while k < args.len()
            invariant
                arity <= k <= args@.len(),
                tail@ == args@.subrange(arity as int, k as int),
            decreases args@.len() - k,
        {
            tail.push(args[k]);
            proof {
                assert(tail@ =~= args@.subrange(arity as int, k + 1));
            }
            k = k + 1;
        }
        proof {
            assert(tail@ =~= args@.subrange(arity as int, args@.len() as int));
        }
        Some(tail)
    } else {
        None
    };
    CallPlan { args: out, rest }
}

/// Builds a getter trampoline's call: receivers, then the entity reference
/// when the accessor takes one, then the slot index when it takes one; a
/// slot value handed to an accessor without a slot parameter is ignored.
#[verifier::loop_isolation(false)]
pub fn prepare_get(p: &PropertyBinding, entity: u32, index: usize) -> (r: Vec<HostArg>)
    ensures
        r@ == getter_call_args(p@, entity, index),
{
    let mut out: Vec<HostArg> = Vec::new();
    let nr = p.receivers.len();
    let mut i: usize = 0;
    while i < nr
        invariant
            i <= nr,
            out@ == ctx_args(p.receivers@.subrange(0, i as int)),
        decreases nr - i,
    {
        out.push(receiver_arg(p.receivers[i]));
        proof {
            assert(out@ =~= ctx_args(p.receivers@.subrange(0, i + 1)));
        }
        i = i + 1;
    }
    proof {
        assert(p.receivers@.subrange(0, nr as int) =~= p.receivers@);
    }
    if p.entity {
        out.push(HostArg::Entity(entity));
    }
    if p.index {
        out.push(HostArg::Index(index));
    }
    proof {
        assert(out@ =~= getter_call_args(p@, entity, index));
    }
    out
}

/// Builds a setter trampoline's call: the getter slots, then the assigned
/// value, direct or converted per the binding's value parameter.
pub fn prepare_set(p: &PropertyBinding, entity: u32, index: usize, value: Value) -> (r: Vec<
    HostArg,
>)
    ensures
        r@ == setter_call_args(p@, entity, index, value),
{
    let mut out = prepare_get(p, entity, index);
    match &p.value {
        Some(m) => {
            let a = match m {
                ParamMode::Direct => HostArg::Value(value),
                ParamMode::Convert(t) => convert(value, *t),
            };
            out.push(a);
        },
        None => {},
    }
    proof {
        assert(out@ =~= setter_call_args(p@, entity, index, value));
    }
    out
}

/// Hands a host method's result back to the VM per the binding's return
/// mode: a plain result is wrapped directly; a fallible result is unwrapped,
/// a success forwarding its value and a failure propagating unchanged.
pub fn complete_call(mode: ReturnMode, ret: HostReturn) -> (r: Result<Value, ErrorKind>)
    requires
        (mode is Plain <==> ret is Plain),
    ensures
        mode is Plain ==> (ret matches HostReturn::Plain(v) && r == Ok::<Value, ErrorKind>(v)),
        mode is Fallible ==> (ret matches HostReturn::Fallible(res) && r == res),
{
    match ret {
        HostReturn::Plain(v) => Ok(v),
        HostReturn::Fallible(res) => match res {
            Ok(v) => Ok(v),
            Err(e) => Err(e),
        },
    }
}

/// A conversion that fails never fails the call: it degrades to the declared
/// type's default value.
pub proof fn lemma_convert_defaults(v: Value, t: ParamTy)
    requires
        !convertible(v, t),
    ensures
        convert_view(v, t) == host_default(t),
{
}

/// A getter that takes an entity reference but no slot parameter forwards
/// the entity alone: the slot value handed to it does not reach the call.
pub proof fn lemma_getter_ignores_slot(p: PropertyView, entity: u32, s1: usize, s2: usize)
    requires
        p.entity,
        !p.index,
    ensures
        getter_call_args(p, entity, s1) == getter_call_args(p, entity, s2),
        getter_call_args(p, entity, s1) == ctx_args(p.receivers).push(HostArg::Entity(entity)),
{
    assert(getter_call_args(p, entity, s1) =~= getter_call_args(p, entity, s2));
    assert(getter_call_args(p, entity, s1) =~= ctx_args(p.receivers).push(
        HostArg::Entity(entity),
    ));
}

} // verus!
