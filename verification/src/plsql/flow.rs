//! Where a block goes: what IF, CASE, loops, exceptions, calls and cursors lead to, said of
//! the conditions and statements in them.

use vstd::prelude::*;

use crate::ast::BinaryOp;
use crate::conditions::{applied, is_condition, is_false, is_true, literals_compared};
use crate::error::Failure;
use crate::eval;
use crate::eval::evaluated;
use crate::plsql::assign;
use crate::plsql::exec;
use crate::plsql::exec::{Calling, Course, Mode, Out, Range, State};
use crate::plsql::state;
use crate::plsql::vars;
use crate::plsql::vars::{Held, Opened, Raised};
use crate::session;
use crate::tree;
use crate::tree::Stmt;
use crate::value::Datum;

verus! {

/// What an expression of a block comes to, as SQL evaluates it with the block's variables
/// and binds in sight.
pub open spec fn in_block(s: State, e: tree::Expr) -> Result<Datum, Failure> {
    evaluated(session::scene(s.w, s.l.binds, Some(s.l.visible())), e)
}

/// A condition without calls changes nothing, and holds when it is TRUE there.
#[verifier::spinoff_prover]
pub proof fn a_plain_condition(m: Mode, fuel: nat, s: State, e: tree::Expr)
    requires
        !exec::has_call(s, e),
        is_condition(in_block(s, e)),
    ensures
        exec::truth_of(m, fuel, s, e).s == s,
        exec::truth_of(m, fuel, s, e).r is Ok,
        exec::truth_of(m, fuel, s, e).r == Ok::<Option<bool>, Raised>(Some(true)) <==> is_true(
            in_block(s, e),
        ),
        exec::truth_of(m, fuel, s, e).r == Ok::<Option<bool>, Raised>(Some(false)) <==> is_false(
            in_block(s, e),
        ),
{
}

/// An expression without calls changes nothing and has the value that it has there.
#[verifier::spinoff_prover]
pub proof fn a_plain_value(m: Mode, fuel: nat, s: State, e: tree::Expr)
    requires
        !exec::has_call(s, e),
        in_block(s, e) is Ok,
    ensures
        exec::value_of(m, fuel, s, e).s == s,
        exec::value_of(m, fuel, s, e).r == Ok::<Datum, Raised>(in_block(s, e)->Ok_0),
{
}

/// A name in a block stands for the variable that the innermost block of those around
/// declares under it.
#[verifier::spinoff_prover]
pub proof fn a_name_stands_for_the_innermost_variable(
    s: State,
    name: Seq<char>,
    a: int,
    b: int,
    v: Datum,
)
    requires
        0 <= a < s.l.frames.len(),
        0 <= b < s.l.frames[a].vars.len(),
        s.l.frames[a].vars[b].0 == name,
        s.l.frames[a].vars[b].1.slot == Held::Scalar(v),
        forall|j: int|
            b < j < s.l.frames[a].vars.len() ==> (#[trigger] s.l.frames[a].vars[j]).0 != name,
        forall|k: int, j: int|
            a < k < s.l.frames.len() && 0 <= j < s.l.frames[k].vars.len() ==> (
            #[trigger] s.l.frames[k].vars[j]).0 != name,
    ensures
        in_block(s, tree::Expr::Column { table: None, name }) == Ok::<Datum, Failure>(v),
{
    reveal(evaluated);
    found_variable(s.l.frames, name, a, b, s.l.frames.len() as int);
}

#[verifier::spinoff_prover]
proof fn last_of_a_name<A>(v: Seq<(Seq<char>, A)>, name: Seq<char>, b: int, n: int)
    requires
        0 <= b < n <= v.len(),
        v[b].0 == name,
        forall|j: int| b < j < n ==> (#[trigger] v[j]).0 != name,
    ensures
        vars::last_named(v, name, n) == Some(b),
    decreases n,
{
    if n - 1 > b {
        assert(v[n - 1].0 != name);
        last_of_a_name(v, name, b, n - 1);
    }
}

#[verifier::spinoff_prover]
proof fn none_of_a_name<A>(v: Seq<(Seq<char>, A)>, name: Seq<char>, n: int)
    requires
        0 <= n <= v.len(),
        forall|j: int| 0 <= j < n ==> (#[trigger] v[j]).0 != name,
    ensures
        vars::last_named(v, name, n) is None,
    decreases n,
{
    if n > 0 {
        assert(v[n - 1].0 != name);
        none_of_a_name(v, name, n - 1);
    }
}

#[verifier::spinoff_prover]
proof fn found_variable(frames: Seq<vars::Level>, name: Seq<char>, a: int, b: int, n: int)
    requires
        0 <= a < n <= frames.len(),
        0 <= b < frames[a].vars.len(),
        frames[a].vars[b].0 == name,
        forall|j: int| b < j < frames[a].vars.len() ==> (#[trigger] frames[a].vars[j]).0 != name,
        forall|k: int, j: int|
            a < k < n && 0 <= j < frames[k].vars.len() ==> (#[trigger] frames[k].vars[j]).0 != name,
    ensures
        vars::find_var(frames, name, n) == Some((a, b)),
    decreases n,
{
    if n - 1 > a {
        none_of_a_name(frames[n - 1].vars, name, frames[n - 1].vars.len() as int);
        found_variable(frames, name, a, b, n - 1);
    } else {
        last_of_a_name(frames[a].vars, name, b, frames[a].vars.len() as int);
    }
}

// ---- statements in a row ----

/// Statements run one after the other; what does not go on normally ends the row.
#[verifier::spinoff_prover]
pub proof fn statements_run_in_their_order(
    m: Mode,
    fuel: nat,
    s: State,
    a: Seq<Stmt>,
    b: Seq<Stmt>,
)
    ensures
        ({
            let first = exec::statements_run(m, fuel, s, a, 0);
            exec::statements_run(m, fuel, s, a + b, 0) == if first.r == Ok::<Course, Raised>(
                Course::Normal,
            ) {
                exec::statements_run(m, fuel, first.s, b, 0)
            } else {
                first
            }
        }),
{
    rest_of_the_row(m, fuel, s, a, b, 0);
}

#[verifier::spinoff_prover]
proof fn rest_of_the_row(m: Mode, fuel: nat, s: State, a: Seq<Stmt>, b: Seq<Stmt>, i: int)
    requires
        0 <= i <= a.len(),
    ensures
        ({
            let first = exec::statements_run(m, fuel, s, a, i);
            exec::statements_run(m, fuel, s, a + b, i) == if first.r == Ok::<Course, Raised>(
                Course::Normal,
            ) {
                exec::statements_run(m, fuel, first.s, b, 0)
            } else {
                first
            }
        }),
    decreases a.len() - i,
{
    if i < a.len() {
        assert((a + b)[i] == a[i]);
        let o = exec::statement_run(m, fuel, s, a[i]);
        rest_of_the_row(m, fuel, o.s, a, b, i + 1);
    } else {
        behind(m, fuel, s, a, b, 0);
    }
}

#[verifier::spinoff_prover]
proof fn behind(m: Mode, fuel: nat, s: State, a: Seq<Stmt>, b: Seq<Stmt>, k: int)
    requires
        0 <= k <= b.len(),
    ensures
        exec::statements_run(m, fuel, s, a + b, a.len() + k) == exec::statements_run(
            m,
            fuel,
            s,
            b,
            k,
        ),
    decreases b.len() - k,
{
    if k < b.len() {
        assert((a + b)[a.len() + k] == b[k]);
        let o = exec::statement_run(m, fuel, s, b[k]);
        behind(m, fuel, o.s, a, b, k + 1);
    }
}

/// One statement alone is what it leads to.
#[verifier::spinoff_prover]
pub proof fn one_statement(m: Mode, fuel: nat, s: State, st: Stmt)
    ensures
        exec::statements_run(m, fuel, s, seq![st], 0) == exec::statement_run(m, fuel, s, st),
        exec::statements_run(m, fuel, s, Seq::empty(), 0) == (Out {
            s,
            r: Ok::<Course, Raised>(Course::Normal),
        }),
        exec::statement_run(m, fuel, s, Stmt::Null) == (Out {
            s,
            r: Ok::<Course, Raised>(Course::Normal),
        }),
{
    let row = seq![st];
    let o = exec::statement_run(m, fuel, s, st);
    assert(row[0] == st);
    assert(exec::statements_run(m, fuel, o.s, row, 1) == exec::done(o.s));
}

// ---- IF and CASE ----

/// Whether the conditions in front of a place were tried in turn, each in the state that the
/// one before it left, and none of them is TRUE.
pub open spec fn none_true(
    m: Mode,
    fuel: nat,
    at: Seq<State>,
    branches: Seq<(tree::Expr, Seq<Stmt>)>,
    k: int,
) -> bool {
    forall|j: int|
        0 <= j < k ==> {
            let x = exec::truth_of(m, fuel, #[trigger] at[j], branches[j].0);
            x.s == at[j + 1] && x.r is Ok && x.r != Ok::<Option<bool>, Raised>(Some(true))
        }
}

/// IF runs the statements of the first branch whose condition is TRUE, whichever branch that
/// is, and those behind ELSE only where no condition is TRUE. A condition that fails ends it.
#[verifier::spinoff_prover]
pub proof fn if_takes_the_first_true_branch(
    m: Mode,
    fuel: nat,
    at: Seq<State>,
    branches: Seq<(tree::Expr, Seq<Stmt>)>,
    else_: Option<Seq<Stmt>>,
    k: int,
)
    requires
        0 <= k <= branches.len(),
        at.len() == k + 1,
        none_true(m, fuel, at, branches, k),
    ensures
        ({
            let o = exec::statement_run(m, fuel, at[0], Stmt::If { branches, else_ });
            if k < branches.len() {
                let x = exec::truth_of(m, fuel, at[k], branches[k].0);
                &&& x.r == Ok::<Option<bool>, Raised>(Some(true)) ==> o == exec::statements_run(
                    m,
                    fuel,
                    x.s,
                    branches[k].1,
                    0,
                )
                &&& x.r is Err ==> o == (Out { s: x.s, r: Err::<Course, Raised>(x.r->Err_0) })
            } else {
                o == match else_ {
                    Some(body) => exec::statements_run(m, fuel, at[k], body, 0),
                    None => Out { s: at[k], r: Ok(Course::Normal) },
                }
            }
        }),
{
    let st = Stmt::If { branches, else_ };
    passed_over(m, fuel, at, branches, else_, 0, k);
}

#[verifier::spinoff_prover]
proof fn passed_over(
    m: Mode,
    fuel: nat,
    at: Seq<State>,
    branches: Seq<(tree::Expr, Seq<Stmt>)>,
    else_: Option<Seq<Stmt>>,
    i: int,
    k: int,
)
    requires
        0 <= i <= k <= branches.len(),
        at.len() == k + 1,
        none_true(m, fuel, at, branches, k),
    ensures
        exec::branch_from(m, fuel, at[i], Stmt::If { branches, else_ }, i) == exec::branch_from(
            m,
            fuel,
            at[k],
            Stmt::If { branches, else_ },
            k,
        ),
    decreases k - i,
{
    if i < k {
        let x = exec::truth_of(m, fuel, at[i], branches[i].0);
        assert(x.s == at[i + 1]);
        passed_over(m, fuel, at, branches, else_, i + 1, k);
    }
}

/// The CASE statement without an operand and with ELSE is IF with the same branches.
#[verifier::spinoff_prover]
pub proof fn a_searched_case_is_if(
    m: Mode,
    fuel: nat,
    s: State,
    whens: Seq<(tree::Expr, Seq<Stmt>)>,
    body: Seq<Stmt>,
)
    ensures
        exec::statement_run(
            m,
            fuel,
            s,
            Stmt::Case { operand: None, whens, else_: Some(body) },
        ) == exec::statement_run(m, fuel, s, Stmt::If { branches: whens, else_: Some(body) }),
{
    same_from(m, fuel, s, whens, body, 0);
}

#[verifier::spinoff_prover]
proof fn same_from(
    m: Mode,
    fuel: nat,
    s: State,
    whens: Seq<(tree::Expr, Seq<Stmt>)>,
    body: Seq<Stmt>,
    i: int,
)
    requires
        0 <= i <= whens.len(),
    ensures
        exec::when_from(
            m,
            fuel,
            s,
            Stmt::Case { operand: None, whens, else_: Some(body) },
            None,
            i,
        ) == exec::branch_from(m, fuel, s, Stmt::If { branches: whens, else_: Some(body) }, i),
    decreases whens.len() - i,
{
    if i < whens.len() {
        let x = exec::truth_of(m, fuel, s, whens[i].0);
        let h = exec::case_hit(m, fuel, s, None, whens[i].0);
        assert(h.s == x.s);
        assert(h.r == match x.r {
            Ok(t) => Ok::<bool, Raised>(t == Some(true)),
            Err(e) => Err(e),
        });
        same_from(m, fuel, x.s, whens, body, i + 1);
    }
}

/// Whether two values are equal, as the condition `=` has it.
pub open spec fn equal_values(s: State, v: Datum, w: Datum) -> bool {
    is_true(
        in_block(
            s,
            applied(BinaryOp::Eq, tree::Expr::Literal(v), tree::Expr::Literal(w)),
        ),
    )
}

/// CASE of an operand goes on behind a case that the operand does not equal, takes one that
/// it equals, and raises CASE_NOT_FOUND where none is left and there is no ELSE.
#[verifier::spinoff_prover]
pub proof fn a_case_compares_its_operand(
    m: Mode,
    fuel: nat,
    s: State,
    operand: Option<tree::Expr>,
    whens: Seq<(tree::Expr, Seq<Stmt>)>,
    else_: Option<Seq<Stmt>>,
    v: Datum,
    i: int,
)
    requires
        0 <= i <= whens.len(),
    ensures
        ({
            let st = Stmt::Case { operand, whens, else_ };
            let o = exec::when_from(m, fuel, s, st, Some(v), i);
            if i < whens.len() {
                let x = exec::value_of(m, fuel, s, whens[i].0);
                x.r is Ok && in_block(
                    x.s,
                    applied(
                        BinaryOp::Eq,
                        tree::Expr::Literal(v),
                        tree::Expr::Literal(x.r->Ok_0),
                    ),
                ) is Ok ==> o == if equal_values(x.s, v, x.r->Ok_0) {
                    exec::statements_run(m, fuel, x.s, whens[i].1, 0)
                } else {
                    exec::when_from(m, fuel, x.s, st, Some(v), i + 1)
                }
            } else {
                &&& else_ matches Some(body) ==> o == exec::statements_run(m, fuel, s, body, 0)
                &&& else_ is None ==> o.r is Err && o.r->Err_0.err.code == 6592 && o.s == s
            }
        }),
        ({
            let x = exec::value_of(m, fuel, s, operand->0);
            let st = Stmt::Case { operand, whens, else_ };
            operand is Some && x.r == Ok::<Datum, Raised>(v) ==> exec::statement_run(
                m,
                fuel,
                s,
                st,
            ) == exec::when_from(m, fuel, x.s, st, Some(v), 0)
        }),
{
    if i < whens.len() {
        let x = exec::value_of(m, fuel, s, whens[i].0);
        let h = exec::case_hit(m, fuel, s, Some(v), whens[i].0);
        if x.r is Ok {
            literals_compared(
                session::scene(x.s.w, x.s.l.binds, Some(x.s.l.visible())),
                v,
                x.r->Ok_0,
            );
            assert(h == (Out { s: x.s, r: exec::same_value(x.s, v, x.r->Ok_0) }));
        }
    }
}

// ---- loops ----

/// Whether a run of a loop's body goes on with the next: it ended normally, or with a
/// CONTINUE of this loop.
pub open spec fn goes_on(label: Option<Seq<char>>, r: Result<Course, Raised>) -> bool {
    r matches Ok(c) && (c is Normal || (c matches Course::Continue(l) && (l is None || l
        == label)))
}

/// Whether a run of a loop's body leaves this loop by EXIT.
pub open spec fn leaves(label: Option<Seq<char>>, r: Result<Course, Raised>) -> bool {
    r matches Ok(c) && (c matches Course::Exit(l) && (l is None || l == label))
}

/// LOOP runs its body again and again until an EXIT of it; anything else that a body ends
/// with is handed on.
#[verifier::spinoff_prover]
pub proof fn a_loop_runs_until_it_is_left(
    m: Mode,
    fuel: nat,
    s: State,
    label: Option<Seq<char>>,
    body: Seq<Stmt>,
)
    requires
        fuel > 0,
    ensures
        ({
            let st = Stmt::Loop { label, body };
            let once = exec::statements_run(m, (fuel - 1) as nat, s, body, 0);
            exec::statement_run(m, fuel, s, st) == if goes_on(label, once.r) {
                exec::statement_run(m, (fuel - 1) as nat, once.s, st)
            } else if leaves(label, once.r) {
                Out { s: once.s, r: Ok(Course::Normal) }
            } else {
                once
            }
        }),
{
}

/// WHILE tests its condition in front of each run of its body, and ends when that is not
/// TRUE.
#[verifier::spinoff_prover]
pub proof fn a_while_loop_tests_first(
    m: Mode,
    fuel: nat,
    s: State,
    label: Option<Seq<char>>,
    cond: tree::Expr,
    body: Seq<Stmt>,
)
    requires
        fuel > 0,
        exec::truth_of(m, (fuel - 1) as nat, s, cond).r is Ok,
    ensures
        ({
            let st = Stmt::While { label, cond, body };
            let x = exec::truth_of(m, (fuel - 1) as nat, s, cond);
            let once = exec::statements_run(m, (fuel - 1) as nat, x.s, body, 0);
            exec::statement_run(m, fuel, s, st) == if x.r != Ok::<Option<bool>, Raised>(
                Some(true),
            ) {
                Out { s: x.s, r: Ok(Course::Normal) }
            } else if goes_on(label, once.r) {
                exec::statement_run(m, (fuel - 1) as nat, once.s, st)
            } else if leaves(label, once.r) {
                Out { s: once.s, r: Ok(Course::Normal) }
            } else {
                once
            }
        }),
{
}

/// The number that a FOR loop has in its run `k`, counted from zero.
pub open spec fn number_at(lo: int, hi: int, reverse: bool, k: int) -> int {
    if reverse {
        hi - k
    } else {
        lo + k
    }
}

/// The state of a FOR loop's body: its variable, and it alone, in the innermost level.
pub open spec fn with_number(s: State, var: Seq<char>, i: int) -> State {
    exec::looping(s, var, exec::counter(i))
}

/// Whether the runs of a FOR loop's body in front of a place lead from state to state, and
/// each goes on.
pub open spec fn runs_on(
    m: Mode,
    fuel: nat,
    at: Seq<State>,
    label: Option<Seq<char>>,
    var: Seq<char>,
    lo: int,
    hi: int,
    reverse: bool,
    body: Seq<Stmt>,
    n: int,
) -> bool {
    forall|k: int|
        0 <= k < n ==> {
            let o = exec::statements_run(
                m,
                (fuel - 1 - k) as nat,
                with_number(#[trigger] at[k], var, number_at(lo, hi, reverse, k)),
                body,
                0,
            );
            o.s == at[k + 1] && goes_on(label, o.r) && at[k].l.frames.len() > 0
        }
}

/// FOR over a range runs its body once for each whole number from the low bound to the high
/// one, in their order or in the reverse of it, and not at all when the low bound is the
/// higher.
#[verifier::spinoff_prover]
pub proof fn a_for_loop_counts_through_its_range(
    m: Mode,
    fuel: nat,
    at: Seq<State>,
    label: Option<Seq<char>>,
    var: Seq<char>,
    lo: int,
    hi: int,
    reverse: bool,
    body: Seq<Stmt>,
    n: int,
)
    requires
        n == if lo <= hi {
            hi - lo + 1
        } else {
            0
        },
        at.len() == n + 1,
        fuel >= n,
        runs_on(m, fuel, at, label, var, lo, hi, reverse, body, n),
    ensures
        exec::range_from(
            m,
            fuel,
            at[0],
            Range { label, var, reverse, lo, hi },
            body,
            number_at(lo, hi, reverse, 0),
        ) == (Out { s: at[n], r: Ok::<Course, Raised>(Course::Normal) }),
{
    counted_on(m, fuel, at, label, var, lo, hi, reverse, body, n, 0);
}

#[verifier::spinoff_prover]
proof fn counted_on(
    m: Mode,
    fuel: nat,
    at: Seq<State>,
    label: Option<Seq<char>>,
    var: Seq<char>,
    lo: int,
    hi: int,
    reverse: bool,
    body: Seq<Stmt>,
    n: int,
    k: int,
)
    requires
        0 <= k <= n,
        n == if lo <= hi {
            hi - lo + 1
        } else {
            0
        },
        at.len() == n + 1,
        fuel >= n,
        runs_on(m, fuel, at, label, var, lo, hi, reverse, body, n),
    ensures
        exec::range_from(
            m,
            (fuel - k) as nat,
            at[k],
            Range { label, var, reverse, lo, hi },
            body,
            number_at(lo, hi, reverse, k),
        ) == (Out { s: at[n], r: Ok::<Course, Raised>(Course::Normal) }),
    decreases n - k,
{
    if k < n {
        let o = exec::statements_run(
            m,
            (fuel - 1 - k) as nat,
            with_number(at[k], var, number_at(lo, hi, reverse, k)),
            body,
            0,
        );
        assert(o.s == at[k + 1]);
        assert((fuel - k - 1) as nat == (fuel - (k + 1)) as nat);
        counted_on(m, fuel, at, label, var, lo, hi, reverse, body, n, k + 1);
    }
}

/// The statement FOR is the loop over the range of its two bounds, with a level of its own
/// that is gone afterwards.
#[verifier::spinoff_prover]
pub proof fn for_evaluates_its_bounds_once(
    m: Mode,
    fuel: nat,
    s: State,
    label: Option<Seq<char>>,
    var: Seq<char>,
    reverse: bool,
    low: tree::Expr,
    high: tree::Expr,
    body: Seq<Stmt>,
)
    requires
        exec::int_of(m, fuel, s, low).r is Ok,
        exec::int_of(m, fuel, exec::int_of(m, fuel, s, low).s, high).r is Ok,
    ensures
        ({
            let x = exec::int_of(m, fuel, s, low);
            let y = exec::int_of(m, fuel, x.s, high);
            let (lo, hi) = (x.r->Ok_0, y.r->Ok_0);
            let inside = State {
                l: state::Run { frames: y.s.l.frames.push(vars::no_level()), ..y.s.l },
                ..y.s
            };
            let o = exec::range_from(
                m,
                fuel,
                inside,
                Range { label, var, reverse, lo, hi },
                body,
                number_at(lo, hi, reverse, 0),
            );
            let r = exec::statement_run(
                m,
                fuel,
                s,
                Stmt::ForRange { label, var, reverse, low, high, body },
            );
            r.r == o.r && r.s.w == o.s.w && (o.s.l.frames.len() > 0 ==> r.s.l.frames
                == o.s.l.frames.drop_last())
        }),
{
}

/// In a FOR loop's body the loop's variable stands for the number of the run.
#[verifier::spinoff_prover]
pub proof fn the_loop_variable_is_the_number(s: State, var: Seq<char>, i: int)
    requires
        s.l.frames.len() > 0,
    ensures
        in_block(with_number(s, var, i), tree::Expr::Column { table: None, name: var }) == Ok::<
            Datum,
            Failure,
        >(Datum::Number(crate::number::integer(i))),
{
    let t = with_number(s, var, i);
    let a = t.l.frames.len() - 1;
    assert(t.l.frames[a].vars[0].0 == var);
    a_name_stands_for_the_innermost_variable(
        t,
        var,
        a,
        0,
        Datum::Number(crate::number::integer(i)),
    );
}

/// A cursor FOR loop runs its body for one row after the other, and ends behind the last.
#[verifier::spinoff_prover]
pub proof fn a_cursor_loop_takes_each_row(
    m: Mode,
    fuel: nat,
    s: State,
    label: Option<Seq<char>>,
    var: Seq<char>,
    o: Opened,
    body: Seq<Stmt>,
    k: int,
)
    requires
        0 <= k,
        fuel > 0,
        s.l.frames.len() > 0,
    ensures
        ({
            let r = exec::rows_from(m, fuel, s, label, var, o, body, k);
            if k >= o.rows.len() {
                r == (Out { s, r: Ok::<Course, Raised>(Course::Normal) })
            } else {
                exists|inside: State|
                    {
                        let once = #[trigger] exec::statements_run(
                            m,
                            (fuel - 1) as nat,
                            inside,
                            body,
                            0,
                        );
                        &&& holds_row(inside, var, o.columns, o.rows[k])
                        &&& inside.w == s.w
                        &&& r == if goes_on(label, once.r) {
                            exec::rows_from(
                                m,
                                (fuel - 1) as nat,
                                once.s,
                                label,
                                var,
                                o,
                                body,
                                k + 1,
                            )
                        } else if leaves(label, once.r) {
                            Out { s: once.s, r: Ok(Course::Normal) }
                        } else {
                            once
                        }
                    }
            }
        }),
{
    if k < o.rows.len() {
        let v = vars::Variable {
            ty: vars::VarType::Record,
            slot: Held::Record(assign::zipped(o.columns, o.rows[k])),
            constant: false,
            not_null: false,
        };
        let inside = exec::looping(s, var, v);
        assert(inside.l.frames.last().vars[0] == (var, v));
        let once = exec::statements_run(m, (fuel - 1) as nat, inside, body, 0);
        assert(holds_row(inside, var, o.columns, o.rows[k]));
    }
}

/// Whether the innermost level has a record of a name with a row's values under the names of
/// its columns.
pub open spec fn holds_row(
    s: State,
    var: Seq<char>,
    columns: Seq<Seq<char>>,
    row: Seq<Datum>,
) -> bool {
    &&& s.l.frames.len() > 0
    &&& s.l.frames.last().vars.len() == 1
    &&& s.l.frames.last().vars[0].0 == var
    &&& s.l.frames.last().vars[0].1.slot matches Held::Record(f) && forall|j: int|
        0 <= j < columns.len() && j < row.len() ==> #[trigger] f[j] == (columns[j], row[j])
}

/// EXIT and CONTINUE with WHEN jump when their condition is TRUE and do nothing otherwise;
/// without WHEN they always jump. RETURN hands its value on.
#[verifier::spinoff_prover]
pub proof fn jumps(
    m: Mode,
    fuel: nat,
    s: State,
    label: Option<Seq<char>>,
    when: Option<tree::Expr>,
    value: tree::Expr,
)
    ensures
        ({
            let x = exec::truth_of(m, fuel, s, when->0);
            let yes = when is None || x.r == Ok::<Option<bool>, Raised>(Some(true));
            let after = if when is None {
                s
            } else {
                x.s
            };
            when is None || x.r is Ok ==> {
                &&& exec::statement_run(m, fuel, s, Stmt::Exit { label, when }) == (Out {
                    s: after,
                    r: Ok::<Course, Raised>(
                        if yes {
                            Course::Exit(label)
                        } else {
                            Course::Normal
                        },
                    ),
                })
                &&& exec::statement_run(m, fuel, s, Stmt::Continue { label, when }) == (Out {
                    s: after,
                    r: Ok::<Course, Raised>(
                        if yes {
                            Course::Continue(label)
                        } else {
                            Course::Normal
                        },
                    ),
                })
            }
        }),
        ({
            let x = exec::value_of(m, fuel, s, value);
            x.r is Ok ==> exec::statement_run(m, fuel, s, Stmt::Return(Some(value))) == (Out {
                s: x.s,
                r: Ok::<Course, Raised>(Course::Return(Some(x.r->Ok_0))),
            })
        }),
{
}

// ---- exceptions ----

/// Whether a handler names an exception, by a name or by OTHERS.
pub open spec fn names_it(s: State, h: tree::Handler, e: Raised) -> bool {
    exists|j: int|
        0 <= j < h.exceptions.len() && state::catches(
            s.l.frames,
            #[trigger] h.exceptions[j],
            e,
        )
}

#[verifier::spinoff_prover]
proof fn names_are_tried(frames: Seq<vars::Level>, names: Seq<Seq<char>>, e: Raised, n: int)
    requires
        0 <= n <= names.len(),
    ensures
        state::catches_any(frames, names, e, n) <==> exists|j: int|
            0 <= j < n && state::catches(frames, #[trigger] names[j], e),
    decreases n,
{
    if n > 0 {
        names_are_tried(frames, names, e, n - 1);
        if state::catches(frames, names[n - 1], e) {
            assert(exists|j: int| 0 <= j < n && state::catches(frames, #[trigger] names[j], e));
        }
    }
}

/// An exception goes to the first handler that names it, which sees it as the one being
/// handled, and out of the block when none does.
#[verifier::spinoff_prover]
pub proof fn the_first_handler_that_names_it(
    m: Mode,
    fuel: nat,
    s: State,
    handlers: Seq<tree::Handler>,
    e: Raised,
    k: int,
)
    requires
        0 <= k <= handlers.len(),
        forall|j: int| 0 <= j < k ==> !names_it(s, #[trigger] handlers[j], e),
        k < handlers.len() ==> names_it(s, handlers[k], e),
    ensures
        ({
            let o = exec::handled(m, fuel, s, handlers, e, 0);
            if k < handlers.len() {
                let inside = State {
                    l: state::Run { handling: s.l.handling.push(e), ..s.l },
                    ..s
                };
                let x = exec::statements_run(m, fuel, inside, handlers[k].body, 0);
                o.r == x.r && o.s.w == x.s.w && o.s.l.frames == x.s.l.frames
            } else {
                o == (Out { s, r: Err::<Course, Raised>(e) })
            }
        }),
{
    handlers_passed(m, fuel, s, handlers, e, 0, k);
    if k < handlers.len() {
        names_are_tried(
            s.l.frames,
            handlers[k].exceptions,
            e,
            handlers[k].exceptions.len() as int,
        );
    }
}

#[verifier::spinoff_prover]
proof fn handlers_passed(
    m: Mode,
    fuel: nat,
    s: State,
    handlers: Seq<tree::Handler>,
    e: Raised,
    i: int,
    k: int,
)
    requires
        0 <= i <= k <= handlers.len(),
        forall|j: int| 0 <= j < k ==> !names_it(s, #[trigger] handlers[j], e),
    ensures
        exec::handled(m, fuel, s, handlers, e, i) == exec::handled(m, fuel, s, handlers, e, k),
    decreases k - i,
{
    if i < k {
        names_are_tried(
            s.l.frames,
            handlers[i].exceptions,
            e,
            handlers[i].exceptions.len() as int,
        );
        assert(!names_it(s, handlers[i], e));
        handlers_passed(m, fuel, s, handlers, e, i + 1, k);
    }
}

/// OTHERS names every exception, a declared exception itself, and a predefined one the error
/// of its code.
#[verifier::spinoff_prover]
pub proof fn what_a_handler_names(s: State, name: Seq<char>, e: Raised)
    ensures
        state::catches(s.l.frames, "OTHERS"@, e),
        state::catches(s.l.frames, name, state::raise_due(s.l.frames, name)) || (
        vars::find_exception(s.l.frames, name, s.l.frames.len() as int) is None
            && state::predefined(crate::parser::last_part(name)) is None),
{
}

/// A block runs its statements behind its declarations. What they raise goes to its handlers,
/// what a declaration raises does not, and its level is gone at the end.
#[verifier::spinoff_prover]
pub proof fn a_block_hands_exceptions_to_its_handlers(m: Mode, fuel: nat, s: State, b: tree::Block)
    ensures
        ({
            let inside = State {
                l: state::Run { frames: s.l.frames.push(vars::no_level()), ..s.l },
                ..s
            };
            let d = exec::declarations_run(m, fuel, inside, b.decls, b.decls.len() as int);
            let o = exec::statements_run(m, fuel, d.s, b.body, 0);
            let r = exec::statement_run(m, fuel, s, Stmt::Block(b));
            &&& d.r is Err ==> r.r == Err::<Course, Raised>(d.r->Err_0) && r.s.w == d.s.w
            &&& d.r is Ok && o.r is Ok ==> r.r == o.r && r.s.w == o.s.w
            &&& d.r is Ok && o.r is Err && o.r->Err_0.err != eval::free() ==> {
                let h = exec::handled(m, fuel, o.s, b.handlers, o.r->Err_0, 0);
                r.r == h.r && r.s.w == h.s.w
            }
        }),
{
}

/// RAISE without a name raises what is being handled, and with one its exception.
#[verifier::spinoff_prover]
pub proof fn raising(m: Mode, fuel: nat, s: State, name: Seq<char>)
    ensures
        s.l.handling.len() > 0 ==> exec::statement_run(m, fuel, s, Stmt::Raise(None)) == (Out {
            s,
            r: Err::<Course, Raised>(s.l.handling.last()),
        }),
        s.l.handling.len() == 0 ==> exec::statement_run(m, fuel, s, Stmt::Raise(None)).r is Err,
        exec::statement_run(m, fuel, s, Stmt::Raise(Some(name))) == (Out {
            s,
            r: Err::<Course, Raised>(state::raise_due(s.l.frames, name)),
        }),
{
}

// ---- SELECT INTO and cursors ----

/// SELECT INTO raises NO_DATA_FOUND without a row and TOO_MANY_ROWS with more than one, and
/// otherwise fills its targets with the values of the row.
#[verifier::spinoff_prover]
pub proof fn selecting_into_takes_one_row(
    m: Mode,
    s: State,
    q: tree::Query,
    into: Seq<tree::Target>,
)
    requires
        exec::sql_due(m, s, tree::Statement::Query(q)).r is Ok,
    ensures
        ({
            let x = exec::sql_due(m, s, tree::Statement::Query(q));
            let g = x.r->Ok_0;
            let r = exec::sql_run(m, s, tree::Statement::Query(q), into);
            &&& g.rows.len() == 0 ==> r.r is Err && r.r->Err_0.err.code == 1403
            &&& g.rows.len() > 1 ==> r.r is Err && r.r->Err_0.err.code == 1422
            &&& g.rows.len() == 1 && r.r is Ok ==> {
                let f = assign::row_assigned(
                    x.s.w.seat.env,
                    state::Run { rowcount: Some(1), ..x.s.l },
                    into,
                    Seq::new(g.columns.len(), |i: int| g.columns[i].0),
                    g.rows[0],
                );
                f.failure is None && r.s.l == f.l && r.s.w == x.s.w
            }
        }),
{
    reveal(exec::sql_run);
    let x = exec::sql_due(m, s, tree::Statement::Query(q));
    let g = x.r->Ok_0;
    assert(exec::names_of(g.columns) =~= Seq::new(g.columns.len(), |i: int| g.columns[i].0));
}

/// SQL%ROWCOUNT behind DML is the number of rows that it touched.
#[verifier::spinoff_prover]
pub proof fn dml_sets_the_row_count(
    m: Mode,
    s: State,
    stmt: tree::Statement,
    into: Seq<tree::Target>,
)
    requires
        exec::is_dml(stmt),
        exec::returning_of(stmt) is None,
        exec::sql_due(m, s, stmt).r is Ok,
        exec::sql_due(m, s, stmt).r->Ok_0.count <= i64::MAX,
    ensures
        exec::sql_run(m, s, stmt, into).r is Ok,
        exec::sql_run(m, s, stmt, into).s.l.rowcount == Some(
            exec::sql_due(m, s, stmt).r->Ok_0.count,
        ),
        exec::sql_run(m, s, stmt, into).s.w == exec::sql_due(m, s, stmt).s.w,
{
    reveal(exec::sql_run);
}

/// FETCH takes the first of the rows that an open cursor has left, counts it, and says so;
/// with none left it says that none was found and leaves the targets alone.
#[verifier::spinoff_prover]
pub proof fn fetching_takes_the_next_row(
    s: State,
    cursor: Seq<char>,
    into: Seq<tree::Target>,
    a: int,
    b: int,
    o: Opened,
)
    requires
        vars::find_cursor(s.l.frames, cursor, s.l.frames.len() as int) == Some((a, b)),
        s.l.frames[a].cursors[b].1.open == Some(o),
        0 <= o.rowcount < i64::MAX,
    ensures
        ({
            let r = exec::fetched(s, cursor, into);
            if o.rows.len() == 0 {
                &&& r.r is Ok
                &&& r.s == exec::with_open(s, a, b, Some(Opened { found: Some(false), ..o }))
            } else {
                let next = exec::with_open(
                    s,
                    a,
                    b,
                    Some(
                        Opened {
                            rows: o.rows.skip(1),
                            rowcount: o.rowcount + 1,
                            found: Some(true),
                            ..o
                        },
                    ),
                );
                let f = assign::row_assigned(
                    s.w.seat.env,
                    next.l,
                    into,
                    o.columns,
                    o.rows[0],
                );
                &&& r.s == (State { l: f.l, ..s })
                &&& r.r is Ok <==> f.failure is None
            }
        }),
{
    reveal(exec::fetched);
    if o.rows.len() > 0 {
        assert(o.rows.remove(0) =~= o.rows.skip(1));
    }
}

// ---- calls ----

/// Each argument goes to one parameter: by its place when it has no name, and else to the
/// parameter of its name. No parameter gets two.
#[verifier::spinoff_prover]
pub proof fn arguments_go_to_their_parameters(c: Calling, p: int, k: int)
    requires
        exec::slots(c, c.args.len() as int) is Some,
        0 <= p < c.r.params.len(),
        exec::slots(c, c.args.len() as int)->0[p] == Some(k),
    ensures
        0 <= k < c.args.len(),
        c.args[k].name is None ==> k == p,
        c.args[k].name matches Some(name) ==> c.r.params[p].name == name,
{
    placed_upto(c, c.args.len() as int);
}

/// Every argument of a call that is accepted reaches a parameter.
#[verifier::spinoff_prover]
pub proof fn no_argument_is_lost(c: Calling, k: int)
    requires
        exec::slots(c, c.args.len() as int) is Some,
        0 <= k < c.args.len(),
    ensures
        exists|p: int|
            0 <= p < c.r.params.len() && #[trigger] exec::slots(c, c.args.len() as int)->0[p]
                == Some(k),
{
    placed_upto(c, c.args.len() as int);
    assert(reaches(exec::slots(c, c.args.len() as int)->0, k));
}

#[verifier::spinoff_prover]
proof fn found_param(params: Seq<tree::Param>, name: Seq<char>, i: int)
    requires
        0 <= i,
        exec::param_index(params, name, i) is Some,
    ensures
        i <= exec::param_index(params, name, i)->0 < params.len(),
        params[exec::param_index(params, name, i)->0].name == name,
    decreases params.len() - i,
{
    if i < params.len() && params[i].name != name {
        found_param(params, name, i + 1);
    }
}

#[verifier::spinoff_prover]
proof fn placed_upto(c: Calling, n: int)
    requires
        0 <= n <= c.args.len(),
        exec::slots(c, n) is Some,
    ensures
        ({
            let t = exec::slots(c, n)->0;
            &&& t.len() == c.r.params.len()
            &&& forall|p: int|
                0 <= p < t.len() && (#[trigger] t[p]) is Some ==> {
                    let k = t[p]->0;
                    &&& 0 <= k < n
                    &&& c.args[k].name is None ==> k == p
                    &&& c.args[k].name matches Some(name) ==> c.r.params[p].name == name
                }
            &&& forall|k: int|
                0 <= k < n ==> #[trigger] reaches(t, k)
            &&& !exec::named_before(c.args, n) ==> forall|p: int|
                n <= p < t.len() ==> (#[trigger] t[p]) is None
        }),
    decreases n,
{
    if n > 0 {
        placed_upto(c, n - 1);
        let u = exec::slots(c, n - 1)->0;
        let t = exec::slots(c, n)->0;
        let p = match c.args[n - 1].name {
            None => n - 1,
            Some(name) => exec::param_index(c.r.params, name, 0)->0,
        };
        if let Some(name) = c.args[n - 1].name {
            found_param(c.r.params, name, 0);
        } else {
            assert(u[p] is None);
        }
        assert(t == u.update(p, Some(n - 1)));
        assert forall|k: int| 0 <= k < n implies #[trigger] reaches(t, k) by {
            if k < n - 1 {
                assert(reaches(u, k));
                let q = choose|q: int| 0 <= q < u.len() && #[trigger] u[q] == Some(k);
                assert(t[q] == Some(k));
            } else {
                assert(t[p] == Some(k));
            }
        }
        if !exec::named_before(c.args, n) {
            assert(!exec::named_before(c.args, n - 1)) by {
                if exec::named_before(c.args, n - 1) {
                    let k = choose|k: int|
                        0 <= k < n - 1 && k < c.args.len() && (#[trigger] c.args[k]).name is Some;
                    assert(c.args[k].name is Some);
                }
            }
        }
    }
}

pub open spec fn reaches(t: Seq<Option<int>>, k: int) -> bool {
    exists|p: int| 0 <= p < t.len() && #[trigger] t[p] == Some(k)
}

/// An OUT argument gets what its parameter holds at the end, and an IN argument nothing.
#[verifier::spinoff_prover]
pub proof fn outs_are_handed_back(
    frames: Seq<vars::Level>,
    params: Seq<tree::Param>,
    values: Seq<exec::Passed>,
    k: int,
    n: int,
)
    requires
        0 <= k < n <= values.len(),
        params.len() == values.len(),
        values[k] is Out,
    ensures
        exists|j: int|
            0 <= j < exec::out_targets(values, n).len() && j < exec::out_values(
                frames,
                params,
                values,
                n,
            ).len() && #[trigger] exec::out_targets(values, n)[j] == values[k]->Out_0
                && exec::out_values(frames, params, values, n)[j] == exec::scalar_of(
                frames,
                params[k].name,
            ),
        exec::out_targets(values, n).len() == exec::out_values(frames, params, values, n).len(),
    decreases n,
{
    lengths_agree(frames, params, values, n - 1);
    if k == n - 1 {
        let j = exec::out_targets(values, n - 1).len() as int;
        assert(exec::out_targets(values, n)[j] == values[k]->Out_0);
    } else {
        outs_are_handed_back(frames, params, values, k, n - 1);
        let a = exec::out_targets(values, n - 1);
        let b = exec::out_values(frames, params, values, n - 1);
        let j = choose|j: int|
            0 <= j < a.len() && j < b.len() && #[trigger] a[j] == values[k]->Out_0 && b[j]
                == exec::scalar_of(frames, params[k].name);
        assert(exec::out_targets(values, n)[j] == a[j]);
    }
}

#[verifier::spinoff_prover]
proof fn lengths_agree(
    frames: Seq<vars::Level>,
    params: Seq<tree::Param>,
    values: Seq<exec::Passed>,
    n: int,
)
    requires
        0 <= n <= values.len(),
        params.len() == values.len(),
    ensures
        exec::out_targets(values, n).len() == exec::out_values(frames, params, values, n).len(),
    decreases n,
{
    if n > 0 {
        lengths_agree(frames, params, values, n - 1);
    }
}

} // verus!
