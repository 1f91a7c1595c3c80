//! Callable values: the distinction between host-provided (native)
//! functions and user-defined ones, and the registered builtins.

use crate::ast::{
    eq_stmt, expr_size, exprs_size, exprs_view, lemma_exprs_size_element, lemma_exprs_view_index,
    lemma_exprs_view_len, stmt_view, AstExpression, AstStatement, ExprV, StmtV,
};
use crate::interpreter::stack::Bindings;
use crate::interpreter::vals_view;
use crate::interpreter::value::{type_label_of, ErrV, RuntimeError, RuntimeValue, Val};
use std::io::Write;
use vstd::prelude::*;
use vstd::string::{StrSliceExecFns, StringExecFns};

verus! {

/// The host-side callables that are registered as builtins.
#[derive(PartialEq, Eq, Structural, Debug, Clone, Copy)]
pub enum NativeHandler {
    Print,
    Println,
    Len,
}

/// A host-side callable with a fixed invocation contract.
pub trait NativeFunctionImplementation {
    fn invoke(&self, arguments: &Vec<RuntimeValue>) -> Result<RuntimeValue, RuntimeError>;
}

#[derive(PartialEq, Debug)]
pub enum FunctionImplementation {
    NativeFunction { handler: NativeHandler },
    UserFunction { statement: AstStatement },
}

/// The mathematical view of a callable implementation.
pub enum ImpV {
    Native(NativeHandler),
    User(StmtV),
}

impl View for FunctionImplementation {
    type V = ImpV;

    open spec fn view(&self) -> ImpV {
        match self {
            FunctionImplementation::NativeFunction { handler } => ImpV::Native(*handler),
            FunctionImplementation::UserFunction { statement } => ImpV::User(stmt_view(*statement)),
        }
    }
}

impl FunctionImplementation {
    /// Equality of implementations: native handlers are compared as
    /// handles, user-defined bodies structurally.
    pub fn equals(&self, other: &FunctionImplementation) -> (r: bool)
        ensures
            r == (self@ == other@),
    {
        match (self, other) {
            (
                FunctionImplementation::NativeFunction { handler: h1 },
                FunctionImplementation::NativeFunction { handler: h2 },
            ) => *h1 == *h2,
            (
                FunctionImplementation::UserFunction { statement: s1 },
                FunctionImplementation::UserFunction { statement: s2 },
            ) => eq_stmt(s1, s2),
            (
                FunctionImplementation::NativeFunction { handler: h1 },
                FunctionImplementation::UserFunction { statement: s2 },
            ) => false,
            (
                FunctionImplementation::UserFunction { statement: s1 },
                FunctionImplementation::NativeFunction { handler: h2 },
            ) => false,
        }
    }

    /// A copy of this implementation with the same view.
    pub fn duplicate(&self) -> (r: FunctionImplementation)
        ensures
            r@ == self@,
    {
        match self {
            FunctionImplementation::NativeFunction { handler } => {
                FunctionImplementation::NativeFunction { handler: *handler }
            },
            FunctionImplementation::UserFunction { statement } => {
                FunctionImplementation::UserFunction { statement: statement.duplicate() }
            },
        }
    }
}

/// Relies on std's `write!` to the standard output stream; the text has
/// been rendered by verified code before the call.
#[verifier::external_body]
fn emit(text: &str) {
    let _ = write!(std::io::stdout(), "{}", text);
}

/// Relies on std's `writeln!` to the standard output stream; the text
/// has been rendered by verified code before the call.
#[verifier::external_body]
fn emit_line(text: &str) {
    let _ = writeln!(std::io::stdout(), "{}", text);
}

/// What invoking a native handler on fully evaluated arguments yields.
/// `print` and `println` render to standard output and return the unit
/// value; `len` returns the character count of a string.
pub open spec fn native_spec(h: NativeHandler, args: Seq<Val>) -> Result<Val, ErrV> {
    if args.len() != 1 {
        Err(ErrV::ArityMismatch { expected: 1, actual: args.len() as usize })
    } else {
        match h {
            NativeHandler::Print => Ok(Val::Unit),
            NativeHandler::Println => Ok(Val::Unit),
            NativeHandler::Len => match args[0] {
                Val::Str(s) => if s.len() <= i32::MAX {
                    Ok(Val::Int(s.len() as int))
                } else {
                    Err(ErrV::IntegerOverflow)
                },
                v => Err(ErrV::LengthOfNonString { type_label: type_label_of(v) }),
            },
        }
    }
}

impl NativeHandler {
    /// Invokes this builtin on fully evaluated arguments.
    pub fn run(&self, arguments: &Vec<RuntimeValue>) -> (r: Result<RuntimeValue, RuntimeError>)
        ensures
            match r {
                Ok(v) => native_spec(*self, vals_view(arguments@)) == Ok::<Val, ErrV>(v@),
                Err(e) => native_spec(*self, vals_view(arguments@)) == Err::<Val, ErrV>(e@),
            },
    {
        proof {
            crate::interpreter::lemma_vals_view_len(arguments@);
        }
        if arguments.len() != 1 {
            return Err(RuntimeError::ArityMismatch { expected: 1, actual: arguments.len() });
        }
        proof {
            crate::interpreter::lemma_vals_view_index(arguments@, 0);
        }
        let argument = &arguments[0];
        match self {
            NativeHandler::Print => {
                let text = argument.value_as_string();
                emit(text.as_str());
                Ok(RuntimeValue::Unit)
            },
            NativeHandler::Println => {
                let text = argument.value_as_string();
                emit_line(text.as_str());
                Ok(RuntimeValue::Unit)
            },
            NativeHandler::Len => match argument {
                RuntimeValue::String(s) => {
                    let n = s.as_str().unicode_len();
                    if n <= 0x7fff_ffff {
                        Ok(RuntimeValue::Integer(n as i32))
                    } else {
                        Err(RuntimeError::IntegerOverflow)
                    }
                },
                v => Err(
                    RuntimeError::LengthOfNonString {
                        type_label: String::from_str(v.type_label()),
                    },
                ),
            },
        }
    }
}

impl NativeFunctionImplementation for NativeHandler {
    fn invoke(&self, arguments: &Vec<RuntimeValue>) -> Result<RuntimeValue, RuntimeError> {
        self.run(arguments)
    }
}

/// The global bindings every run starts from: the native builtins
/// `print`, `println` and `len`, each of arity one.
pub open spec fn builtins_env() -> crate::interpreter::stack::FrameV {
    Map::empty().insert(
        "print"@,
        Val::Func { arity: 1, imp: ImpV::Native(NativeHandler::Print) },
    ).insert("println"@, Val::Func { arity: 1, imp: ImpV::Native(NativeHandler::Println) }).insert(
        "len"@,
        Val::Func { arity: 1, imp: ImpV::Native(NativeHandler::Len) },
    )
}

/// Registers one native builtin under the given name.
fn declare_native(map: &mut Bindings, name: &str, arity: u8, implementation: NativeHandler)
    requires
        old(map).wf(),
    ensures
        final(map).wf(),
        final(map)@ == old(map)@.insert(
            name@,
            Val::Func { arity, imp: ImpV::Native(implementation) },
        ),
{
    map.insert(
        String::from_str(name),
        RuntimeValue::Function {
            arity,
            implementation: FunctionImplementation::NativeFunction { handler: implementation },
        },
    );
}

/// Invokes a call expression: the callee is evaluated and must be a
/// function value of matching arity; the arguments are then evaluated
/// strictly left to right before dispatch.
#[verifier::loop_isolation(false)]
pub(crate) fn invoke_function(
    stack: &mut crate::interpreter::stack::Stack,
    callee: &AstExpression,
    arguments: &Vec<AstExpression>,
) -> (r: Result<RuntimeValue, RuntimeError>)
    requires
        old(stack).wf(),
    ensures
        final(stack).wf(),
        final(stack)@ == old(stack)@,
        crate::interpreter::result_view(r) == crate::interpreter::eval_expr(
            old(stack)@,
            ExprV::Call { callee: Box::new(callee@), arguments: exprs_view(arguments@) },
        ),
    decreases expr_size(*callee) + exprs_size(arguments@), 1nat,
{
    let ghost env = stack@;
    let ghost argsv = exprs_view(arguments@);
    proof {
        lemma_exprs_view_len(arguments@);
    }
    let resolved_callee = match crate::interpreter::evaluate_expression(stack, callee) {
        Ok(v) => v,
        Err(e) => {
            return Err(e);
        },
    };
    match resolved_callee {
        RuntimeValue::Function { arity, implementation } => {
            if arguments.len() != arity as usize {
                return Err(
                    RuntimeError::ArityMismatch { expected: arity, actual: arguments.len() },
                );
            }
            let mut resolved_arguments: Vec<RuntimeValue> = Vec::new();
            proof {
                assert(argsv.subrange(0, argsv.len() as int) =~= argsv);
                match crate::interpreter::eval_args(env, argsv) {
                    Ok(rest) => {
                        assert(crate::interpreter::vals_view(resolved_arguments@) + rest =~= rest);
                    },
                    Err(e) => {},
                }
            }
            let mut i: usize = 0;
            while i < arguments.len()
                invariant
                    stack.wf(),
                    stack@ == env,
                    i <= arguments@.len(),
                    crate::interpreter::vals_view(resolved_arguments@).len() == i as int,
                    crate::interpreter::eval_args(env, argsv) == (match crate::interpreter::eval_args(
                        env,
                        argsv.subrange(i as int, argsv.len() as int),
                    ) {
                        Ok(rest) => Ok::<Seq<Val>, ErrV>(
                            crate::interpreter::vals_view(resolved_arguments@) + rest,
                        ),
                        Err(e) => Err::<Seq<Val>, ErrV>(e),
                    }),
                decreases arguments@.len() - i,
            {
                proof {
                    lemma_exprs_size_element(arguments@, i as int);
                    lemma_exprs_view_index(arguments@, i as int);
                    assert(argsv.subrange(i as int, argsv.len() as int).drop_first()
                        =~= argsv.subrange(i + 1 as int, argsv.len() as int));
                    assert(argsv.subrange(i as int, argsv.len() as int)[0] == argsv[i as int]);
                }
                let value = match crate::interpreter::evaluate_expression(stack, &arguments[i]) {
                    Ok(v) => v,
                    Err(e) => {
                        return Err(e);
                    },
                };
                let ghost pre = resolved_arguments@;
                resolved_arguments.push(value);
                proof {
                    assert(resolved_arguments@.drop_last() =~= pre);
                    crate::interpreter::lemma_vals_view_len(pre);
                    assert(crate::interpreter::vals_view(resolved_arguments@)
                        == crate::interpreter::vals_view(pre).push(value@));
                    match crate::interpreter::eval_args(
                        env,
                        argsv.subrange(i + 1 as int, argsv.len() as int),
                    ) {
                        Ok(rest) => {
                            assert(crate::interpreter::vals_view(pre) + (seq![value@] + rest)
                                =~= crate::interpreter::vals_view(pre).push(value@) + rest);
                        },
                        Err(e) => {},
                    }
                }
                i = i + 1;
            }
            proof {
                assert(argsv.subrange(argsv.len() as int, argsv.len() as int)
                    =~= Seq::<ExprV>::empty());
                assert(crate::interpreter::vals_view(resolved_arguments@) + Seq::<Val>::empty()
                    =~= crate::interpreter::vals_view(resolved_arguments@));
            }
            match implementation {
                FunctionImplementation::NativeFunction { handler } => handler.run(
                    &resolved_arguments,
                ),
                FunctionImplementation::UserFunction { statement } => Err(
                    RuntimeError::UserFunctionUnsupported,
                ),
            }
        },
        other => Err(
            RuntimeError::NotCallable { type_label: String::from_str(other.type_label()) },
        ),
    }
}

/// The bindings holding exactly the native builtins.
pub fn initialise_globals() -> (b: Bindings)
    ensures
        b.wf(),
        b@ == builtins_env(),
{
    let mut map = Bindings::new();
    declare_native(&mut map, "print", 1, NativeHandler::Print);
    declare_native(&mut map, "println", 1, NativeHandler::Println);
    declare_native(&mut map, "len", 1, NativeHandler::Len);
    proof {
        assert(map@ =~= builtins_env());
    }
    map
}

} // verus!
