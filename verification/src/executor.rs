//! The interpreter: one pass over an instruction list, in order.
//!
//! The interpreter keeps an environment from names to backend values.
//! `Input` binds the name of a program input, `Const` the next constant
//! label, `Add` and `Mul` the next temporary label.  `Output` reports the
//! value bound to its name; where the name is not bound, it stands for the
//! value that the instruction directly before it has bound, which is how the
//! target of a lowered statement finds the value of the statement's
//! expression.

use crate::backend::Backend;
use crate::ir::{program_view, Op, OpView};
use crate::labels::{const_label, make_const_label, make_temp_label, temp_label};
use vstd::hash_map::StringHashMap;
use vstd::prelude::*;

verus! {

/// The plain integers that a program is run on, by input name.
pub type Inputs = StringHashMap<i64>;

/// The plain integers that a program has reported, by output name.
pub type Outputs = StringHashMap<i64>;

/// Why a run stopped.
#[derive(Debug, PartialEq)]
pub enum ExecError {
    /// An `Input` names a variable that the caller gave no value for.
    MissingInput(String),
    /// An `Add` or `Mul` names an operand that no earlier instruction bound.
    UndefinedOperand(String),
    /// An `Output` names a value that no earlier instruction bound and does
    /// not directly follow an instruction that binds one.
    MissingOutput(String),
}

/// The mathematical form of an [`ExecError`].
pub enum ExecErrorView {
    MissingInput(Seq<char>),
    UndefinedOperand(Seq<char>),
    MissingOutput(Seq<char>),
}

impl View for ExecError {
    type V = ExecErrorView;

    open spec fn view(&self) -> ExecErrorView {
        match self {
            ExecError::MissingInput(name) => ExecErrorView::MissingInput(name@),
            ExecError::UndefinedOperand(name) => ExecErrorView::UndefinedOperand(name@),
            ExecError::MissingOutput(name) => ExecErrorView::MissingOutput(name@),
        }
    }
}

/// What a run knows about names at some point: which are bound, how many
/// constants and arithmetic results have been bound, and the name bound by
/// the instruction just executed, if it bound one.
pub struct Scope {
    pub bound: Set<Seq<char>>,
    pub consts: nat,
    pub temps: nat,
    pub last: Option<Seq<char>>,
}

impl Scope {
    /// The scope before the first instruction.
    pub open spec fn initial() -> Scope {
        Scope { bound: Set::empty(), consts: 0, temps: 0, last: None }
    }

    /// The bound name whose value `Output(name)` reports, if there is one.
    pub open spec fn resolve(self, name: Seq<char>) -> Option<Seq<char>> {
        if self.bound.contains(name) {
            Some(name)
        } else if self.last is Some && self.bound.contains(self.last->0) {
            self.last
        } else {
            None
        }
    }

    /// The scope after `op`, or the error that `op` stops the run with.
    /// `inputs` holds the names of the inputs that the caller gave.
    pub open spec fn step(self, op: OpView, inputs: Set<Seq<char>>) -> Result<Scope, ExecErrorView> {
        match op {
            OpView::Input(name) => if inputs.contains(name) {
                Ok(Scope { bound: self.bound.insert(name), last: Some(name), ..self })
            } else {
                Err(ExecErrorView::MissingInput(name))
            },
            OpView::Const(_) => Ok(
                Scope {
                    bound: self.bound.insert(const_label(self.consts)),
                    consts: self.consts + 1,
                    last: Some(const_label(self.consts)),
                    ..self
                },
            ),
            OpView::Add(a, b) | OpView::Mul(a, b) => if !self.bound.contains(a) {
                Err(ExecErrorView::UndefinedOperand(a))
            } else if !self.bound.contains(b) {
                Err(ExecErrorView::UndefinedOperand(b))
            } else {
                Ok(
                    Scope {
                        bound: self.bound.insert(temp_label(self.temps)),
                        temps: self.temps + 1,
                        last: Some(temp_label(self.temps)),
                        ..self
                    },
                )
            },
            OpView::Output(name) => if self.resolve(name) is Some {
                Ok(Scope { last: None, ..self })
            } else {
                Err(ExecErrorView::MissingOutput(name))
            },
        }
    }

    /// The scope after all of `ops`, or the first error on the way.
    pub open spec fn run(self, ops: Seq<OpView>, inputs: Set<Seq<char>>) -> Result<
        Scope,
        ExecErrorView,
    >
        decreases ops.len(),
    {
        if ops.len() == 0 {
            Ok(self)
        } else {
            match self.run(ops.drop_last(), inputs) {
                Ok(scope) => scope.step(ops.last(), inputs),
                Err(e) => Err(e),
            }
        }
    }
}

/// The state of a run: the scope, the value of each bound name, and the
/// outputs reported so far.
pub struct Machine<V> {
    pub scope: Scope,
    pub env: Map<Seq<char>, V>,
    pub outputs: Map<Seq<char>, i64>,
}

impl<V> Machine<V> {
    /// The state before the first instruction.
    pub open spec fn initial() -> Machine<V> {
        Machine { scope: Scope::initial(), env: Map::empty(), outputs: Map::empty() }
    }

    /// The state after `op`, where `fresh` is the value that the backend
    /// handed out if `op` made it encode a plain integer.
    pub open spec fn step<B: Backend<Value = V>>(
        self,
        backend: &B,
        op: OpView,
        inputs: Map<Seq<char>, i64>,
        fresh: V,
    ) -> Result<Machine<V>, ExecErrorView> {
        match self.scope.step(op, inputs.dom()) {
            Err(e) => Err(e),
            Ok(scope) => Ok(
                Machine {
                    scope: scope,
                    env: match op {
                        OpView::Input(name) => self.env.insert(name, fresh),
                        OpView::Const(_) => self.env.insert(const_label(self.scope.consts), fresh),
                        OpView::Add(a, b) => self.env.insert(
                            temp_label(self.scope.temps),
                            backend.sum(self.env[a], self.env[b]),
                        ),
                        OpView::Mul(a, b) => self.env.insert(
                            temp_label(self.scope.temps),
                            backend.product(self.env[a], self.env[b]),
                        ),
                        OpView::Output(_) => self.env,
                    },
                    outputs: match op {
                        OpView::Output(name) => self.outputs.insert(
                            name,
                            backend.decoded(self.env[self.scope.resolve(name)->0]),
                        ),
                        _ => self.outputs,
                    },
                },
            ),
        }
    }

    /// The state after all of `ops`, where `fresh[i]` is the value that the
    /// backend handed out at instruction `i`.
    pub open spec fn run<B: Backend<Value = V>>(
        self,
        backend: &B,
        ops: Seq<OpView>,
        inputs: Map<Seq<char>, i64>,
        fresh: Seq<V>,
    ) -> Result<Machine<V>, ExecErrorView>
        decreases ops.len(),
    {
        if ops.len() == 0 {
            Ok(self)
        } else {
            match self.run(backend, ops.drop_last(), inputs, fresh.drop_last()) {
                Ok(machine) => machine.step(backend, ops.last(), inputs, fresh.last()),
                Err(e) => Err(e),
            }
        }
    }
}

/// Whether `fresh` is a value that the backend may hand out at `op`: an
/// encoding of the input that `op` reads or of the constant that it loads.
pub open spec fn fresh_fits<B: Backend>(
    backend: &B,
    op: OpView,
    inputs: Map<Seq<char>, i64>,
    fresh: B::Value,
) -> bool {
    match op {
        OpView::Input(name) => inputs.contains_key(name) ==> backend.encodes(inputs[name], fresh),
        OpView::Const(value) => backend.encodes(value, fresh),
        _ => true,
    }
}

/// Whether `fresh` lists, instruction by instruction, values that the backend
/// may hand out during a run of `ops`.
pub open spec fn trace_fits<B: Backend>(
    backend: &B,
    ops: Seq<OpView>,
    inputs: Map<Seq<char>, i64>,
    fresh: Seq<B::Value>,
) -> bool {
    &&& fresh.len() == ops.len()
    &&& forall|i: int| 0 <= i < ops.len() ==> fresh_fits(backend, #[trigger] ops[i], inputs, fresh[i])
}

/// A run stops with an error exactly where the names alone say so, whatever
/// values the backend hands out.
pub proof fn lemma_run_follows_scope<B: Backend>(
    start: Machine<B::Value>,
    backend: &B,
    ops: Seq<OpView>,
    inputs: Map<Seq<char>, i64>,
    fresh: Seq<B::Value>,
)
    ensures
        match start.run(backend, ops, inputs, fresh) {
            Ok(machine) => start.scope.run(ops, inputs.dom()) == Ok::<Scope, ExecErrorView>(
                machine.scope,
            ),
            Err(e) => start.scope.run(ops, inputs.dom()) == Err::<Scope, ExecErrorView>(e),
        },
    decreases ops.len(),
{
    if ops.len() > 0 {
        lemma_run_follows_scope(start, backend, ops.drop_last(), inputs, fresh.drop_last());
    }
}

/// Whether the backend encodes each plain integer in one way only.
pub open spec fn encodes_in_one_way<B: Backend>(backend: &B) -> bool {
    forall|plain: i64, a: B::Value, b: B::Value|
        #[trigger] backend.encodes(plain, a) && #[trigger] backend.encodes(plain, b) ==> a == b
}

/// With a backend that encodes in one way only, a run is a function of the
/// instructions and the inputs: any two runs end in the same state or stop
/// with the same error.
pub proof fn lemma_runs_agree<B: Backend>(
    start: Machine<B::Value>,
    backend: &B,
    ops: Seq<OpView>,
    inputs: Map<Seq<char>, i64>,
    fresh_a: Seq<B::Value>,
    fresh_b: Seq<B::Value>,
)
    requires
        encodes_in_one_way(backend),
        trace_fits(backend, ops, inputs, fresh_a),
        trace_fits(backend, ops, inputs, fresh_b),
    ensures
        start.run(backend, ops, inputs, fresh_a) == start.run(backend, ops, inputs, fresh_b),
    decreases ops.len(),
{
    if ops.len() > 0 {
        let front = ops.drop_last();
        assert forall|i: int| 0 <= i < front.len() implies fresh_fits(
            backend,
            #[trigger] front[i],
            inputs,
            fresh_a.drop_last()[i],
        ) && fresh_fits(backend, front[i], inputs, fresh_b.drop_last()[i]) by {
            assert(front[i] == ops[i]);
        }
        lemma_runs_agree(start, backend, front, inputs, fresh_a.drop_last(), fresh_b.drop_last());
        // At the last instruction both runs were handed an encoding of the
        // same plain integer, if they were handed one at all.
        let last = ops.len() - 1;
        assert(fresh_fits(backend, ops[last], inputs, fresh_a[last]));
        assert(fresh_fits(backend, ops[last], inputs, fresh_b[last]));
    }
}

/// Runs `ir` on `inputs` with `backend`.
///
/// The run succeeds exactly when no instruction reads an input that is not
/// given or a name that is not bound; otherwise it stops at the first such
/// instruction with the error that names it.  The outputs of a successful
/// run are those of the instructions executed in order on the values that
/// the backend handed out.
///
/// Inputs, constants and arithmetic results share one environment.  An
/// `Input` whose name is spelt like a label (`const_<n>`, `t_<n>`) is
/// overwritten by the constant or result of that number, or overwrites it,
/// whichever comes later; and an `Output` whose name is bound reads that
/// binding rather than the value before it.  Both are run as written: the
/// instructions lowered from `let z = t_0 + a * b` report `12` for `z` on
/// `t_0 = 1`, `a = 2`, `b = 3`.
pub fn execute<B: Backend>(ir: Vec<Op>, inputs: Inputs, backend: &B) -> (result: Result<
    Outputs,
    ExecError,
>)
    ensures
        match result {
            Ok(outputs) => exists|fresh: Seq<B::Value>|
                {
                    &&& trace_fits(backend, program_view(ir@), inputs@, fresh)
                    &&& (#[trigger] Machine::<B::Value>::initial().run(
                        backend,
                        program_view(ir@),
                        inputs@,
                        fresh,
                    )) matches Ok(machine)
                    &&& machine.outputs == outputs@
                },
            Err(e) => Scope::initial().run(program_view(ir@), inputs@.dom()) == Err::<
                Scope,
                ExecErrorView,
            >(e@),
        },
        result is Ok <==> Scope::initial().run(program_view(ir@), inputs@.dom()) is Ok,
{
    let ghost ops = program_view(ir@);
    let mut env: StringHashMap<B::Value> = StringHashMap::new();
    let mut outputs: Outputs = StringHashMap::new();
    let mut const_count: usize = 0;
    let mut temp_count: usize = 0;
    let mut last: Option<String> = None;
    let ghost mut fresh: Seq<B::Value> = Seq::empty();
    let ghost mut machine: Machine<B::Value> = Machine::initial();
    let mut i: usize = 0;
    while i < ir.len()
        invariant
            i <= ir.len(),
            ops == program_view(ir@),
            ops.len() == ir.len(),
            trace_fits(backend, ops.take(i as int), inputs@, fresh),
            Machine::<B::Value>::initial().run(backend, ops.take(i as int), inputs@, fresh) == Ok::<
                Machine<B::Value>,
                ExecErrorView,
            >(machine),
            machine.env == env@,
            machine.outputs == outputs@,
            machine.scope.bound == env@.dom(),
            machine.scope.consts == const_count,
            machine.scope.temps == temp_count,
            const_count + temp_count <= i,
            match last {
                Some(name) => machine.scope.last == Some(name@),
                None => machine.scope.last is None,
            },
        decreases ir.len() - i,
    {
        let ghost prefix = ops.take(i as int);
        let ghost next = ops.take(i + 1);
        let ghost op = ops[i as int];
        proof {
            assert(next.drop_last() =~= prefix);
        }
        let ghost mut value: B::Value = arbitrary();
        match &ir[i] {
            Op::Input(name) => {
                match inputs.get(name.as_str()) {
                    Some(plain) => {
                        let enc = backend.encode(*plain);
                        proof {
                            value = enc;
                        }
                        env.insert(name.clone(), enc);
                        last = Some(name.clone());
                    },
                    None => {
                        proof {
                            lemma_run_follows_scope(
                                Machine::<B::Value>::initial(),
                                backend,
                                prefix,
                                inputs@,
                                fresh,
                            );
                            lemma_scope_stops(Scope::initial(), ops, inputs@.dom(), i as int);
                        }
                        return Err(ExecError::MissingInput(name.clone()));
                    },
                }
            },
            Op::Const(plain) => {
                let name = make_const_label(const_count);
                let enc = backend.encode(*plain);
                proof {
                    value = enc;
                }
                env.insert(name.clone(), enc);
                const_count += 1;
                last = Some(name);
            },
            Op::Add(a, b) => {
                let r = match env.get(a.as_str()) {
                    None => None,
                    Some(x) => match env.get(b.as_str()) {
                        None => None,
                        Some(y) => Some(backend.add(x, y)),
                    },
                };
                match r {
                    Some(r) => {
                        let name = make_temp_label(temp_count);
                        env.insert(name.clone(), r);
                        temp_count += 1;
                        last = Some(name);
                    },
                    None => {
                        proof {
                            lemma_run_follows_scope(
                                Machine::<B::Value>::initial(),
                                backend,
                                prefix,
                                inputs@,
                                fresh,
                            );
                            lemma_scope_stops(Scope::initial(), ops, inputs@.dom(), i as int);
                        }
                        if env.contains_key(a.as_str()) {
                            return Err(ExecError::UndefinedOperand(b.clone()));
                        } else {
                            return Err(ExecError::UndefinedOperand(a.clone()));
                        }
                    },
                }
            },
            Op::Mul(a, b) => {
                let r = match env.get(a.as_str()) {
                    None => None,
                    Some(x) => match env.get(b.as_str()) {
                        None => None,
                        Some(y) => Some(backend.mul(x, y)),
                    },
                };
                match r {
                    Some(r) => {
                        let name = make_temp_label(temp_count);
                        env.insert(name.clone(), r);
                        temp_count += 1;
                        last = Some(name);
                    },
                    None => {
                        proof {
                            lemma_run_follows_scope(
                                Machine::<B::Value>::initial(),
                                backend,
                                prefix,
                                inputs@,
                                fresh,
                            );
                            lemma_scope_stops(Scope::initial(), ops, inputs@.dom(), i as int);
                        }
                        if env.contains_key(a.as_str()) {
                            return Err(ExecError::UndefinedOperand(b.clone()));
                        } else {
                            return Err(ExecError::UndefinedOperand(a.clone()));
                        }
                    },
                }
            },
            Op::Output(name) => {
                let found = match env.get(name.as_str()) {
                    Some(v) => Some(backend.decode(v)),
                    None => match &last {
                        Some(alias) => match env.get(alias.as_str()) {
                            Some(v) => Some(backend.decode(v)),
                            None => None,
                        },
                        None => None,
                    },
                };
                match found {
                    Some(plain) => {
                        outputs.insert(name.clone(), plain);
                        last = None;
                    },
                    None => {
                        proof {
                            lemma_run_follows_scope(
                                Machine::<B::Value>::initial(),
                                backend,
                                prefix,
                                inputs@,
                                fresh,
                            );
                            lemma_scope_stops(Scope::initial(), ops, inputs@.dom(), i as int);
                        }
                        return Err(ExecError::MissingOutput(name.clone()));
                    },
                }
            },
        }
        proof {
            let before = machine;
            let before_fresh = fresh;
            fresh = fresh.push(value);
            assert(fresh.drop_last() =~= before_fresh);
            machine = before.step(backend, op, inputs@, value)->Ok_0;
            assert forall|j: int| 0 <= j < next.len() implies fresh_fits(
                backend,
                #[trigger] next[j],
                inputs@,
                fresh[j],
            ) by {
            }
        }
        i += 1;
    }
    proof {
        assert(ops.take(i as int) =~= ops);
        lemma_run_follows_scope(Machine::<B::Value>::initial(), backend, ops, inputs@, fresh);
    }
    Ok(outputs)
}

/// A run that stops at instruction `at` stops there however many
/// instructions follow.
pub proof fn lemma_scope_stops(start: Scope, ops: Seq<OpView>, inputs: Set<Seq<char>>, at: int)
    requires
        0 <= at < ops.len(),
        start.run(ops.take(at), inputs) matches Ok(scope) && scope.step(ops[at], inputs) is Err,
    ensures
        start.run(ops, inputs) == start.run(ops.take(at), inputs)->Ok_0.step(ops[at], inputs),
    decreases ops.len(),
{
    if at + 1 < ops.len() {
        assert(ops.drop_last().take(at) =~= ops.take(at));
        lemma_scope_stops(start, ops.drop_last(), inputs, at);
    }
}

} // verus!
