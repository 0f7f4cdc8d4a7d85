//! Template evaluation: a single depth-first walk of the compiled
//! instruction sequence against a binding environment. The output is
//! modelled as a sequence of segments — literal text pieces and holes —
//! where each hole stands for one positional placeholder together with
//! the value bound at that position. Rendering the segments yields the
//! SQL text (one `?` per hole) and the bind sequence (the hole values in
//! emission order), which makes the placeholder/bind correspondence hold
//! by construction.

use vstd::prelude::*;
use vstd::string::StringExecFns;
use crate::ast::{BinOp, Expr, ExprS, Instr, InstrS, Template, lemma_view_instrs, view_expr,
    view_instr, view_instrs, view_template};
use crate::error::EvalErr;
use crate::fmtnum::{dec_of, dec_signed, push_dec_i64, push_dec_u64};
use crate::strutil::{chars_vec, ends_with, is_ws, is_ws_exec, push_char, rstrip_ws, str_eq};
use crate::value::{clone_value, lemma_view_entries, lemma_view_entries_push, num_exec, num_of,
    view_entries, view_value, view_values, Value, ValueS};

verus! {

broadcast use vstd::std_specs::vec::group_vec_axioms;

/// One piece of evaluator output: literal text, or a hole standing for a
/// positional placeholder bound to a value.
pub enum SegS {
    Text(Seq<char>),
    Hole(ValueS),
}

/// A binding environment: name/value pairs, later entries shadowing
/// earlier ones. Created fresh per evaluation and never shared.
#[derive(Debug)]
pub struct Env {
    pub items: Vec<(String, Value)>,
}

/// The mathematical view of an environment.
pub open spec fn env_of(e: Env) -> Seq<(Seq<char>, ValueS)> {
    view_entries(e.items@)
}

/// Looks a name up, later bindings shadowing earlier ones.
pub open spec fn lookup_s(env: Seq<(Seq<char>, ValueS)>, name: Seq<char>) -> Option<ValueS>
    decreases env,
{
    if env.len() == 0 {
        None
    } else if env.last().0 == name {
        Some(env.last().1)
    } else {
        lookup_s(env.drop_last(), name)
    }
}

/// Value-kind-aware equality: `Null` equals only `Null`, numbers compare
/// by their mathematical value across kinds, strings to strings, booleans
/// to booleans; any other pairing is a kind error.
pub open spec fn eq_vals(a: ValueS, b: ValueS) -> Result<bool, EvalErr> {
    if a is Null || b is Null {
        Ok(a is Null && b is Null)
    } else if num_of(a) is Some && num_of(b) is Some {
        Ok(num_of(a) == num_of(b))
    } else {
        match (a, b) {
            (ValueS::Str(x), ValueS::Str(y)) => Ok(x == y),
            (ValueS::Bool(x), ValueS::Bool(y)) => Ok(x == y),
            _ => Err(EvalErr::KindMismatch),
        }
    }
}

/// True when `n` fits the signed 64-bit range that expression arithmetic
/// works in.
pub open spec fn in_i64(n: int) -> bool {
    i64::MIN as int <= n <= i64::MAX as int
}

/// Division truncating toward zero, as the expression grammar defines it.
pub open spec fn tdiv(a: int, b: int) -> int
    recommends
        b != 0,
{
    let m = (if a >= 0 { a } else { -a }) / (if b >= 0 { b } else { -b });
    if (a >= 0) == (b >= 0) {
        m
    } else {
        -m
    }
}

/// Arithmetic on mathematical integers; division by zero is an error.
pub open spec fn arith_s(op: BinOp, a: int, b: int) -> Result<int, EvalErr> {
    if op == BinOp::Div && b == 0 {
        Err(EvalErr::DivByZero)
    } else {
        Ok(
            match op {
                BinOp::Add => a + b,
                BinOp::Sub => a - b,
                BinOp::Mul => a * b,
                BinOp::Div => tdiv(a, b),
                _ => 0,
            },
        )
    }
}

/// A non-short-circuiting binary operation on two evaluated values.
/// Arithmetic operands and results must fit the signed 64-bit range; the
/// result of arithmetic is a 64-bit signed value.
pub open spec fn eval_bin_s(op: BinOp, a: ValueS, b: ValueS) -> Result<ValueS, EvalErr> {
    match op {
        BinOp::Eq => match eq_vals(a, b) {
            Ok(r) => Ok(ValueS::Bool(r)),
            Err(e) => Err(e),
        },
        BinOp::Ne => match eq_vals(a, b) {
            Ok(r) => Ok(ValueS::Bool(!r)),
            Err(e) => Err(e),
        },
        BinOp::And => Err(EvalErr::KindMismatch),
        BinOp::Or => Err(EvalErr::KindMismatch),
        _ => match (num_of(a), num_of(b)) {
            (Some(x), Some(y)) => if !in_i64(x) || !in_i64(y) {
                Err(EvalErr::NumOverflow)
            } else {
                match arith_s(op, x, y) {
                    Err(e) => Err(e),
                    Ok(r) => if in_i64(r) {
                        Ok(ValueS::I64(r as i64))
                    } else {
                        Err(EvalErr::NumOverflow)
                    },
                }
            },
            _ => Err(EvalErr::KindMismatch),
        },
    }
}

/// Expression evaluation. Fails when a name is undeclared or an operator
/// is applied to incompatible kinds; `&&` and `||` short-circuit left to
/// right and demand boolean operands.
pub open spec fn eval_expr_s(e: ExprS, env: Seq<(Seq<char>, ValueS)>) -> Result<ValueS, EvalErr>
    decreases e,
{
    match e {
        ExprS::Lit(v) => Ok(v),
        ExprS::Var(n) => match lookup_s(env, n) {
            Some(v) => Ok(v),
            None => Err(EvalErr::Undeclared),
        },
        ExprS::Bin(op, a, b) => {
            if op == BinOp::And || op == BinOp::Or {
                match eval_expr_s(*a, env) {
                    Err(e) => Err(e),
                    Ok(ValueS::Bool(x)) => {
                        if op == BinOp::And && !x {
                            Ok(ValueS::Bool(false))
                        } else if op == BinOp::Or && x {
                            Ok(ValueS::Bool(true))
                        } else {
                            match eval_expr_s(*b, env) {
                                Err(e) => Err(e),
                                Ok(ValueS::Bool(y)) => Ok(ValueS::Bool(y)),
                                Ok(_) => Err(EvalErr::KindMismatch),
                            }
                        }
                    },
                    Ok(_) => Err(EvalErr::KindMismatch),
                }
            } else {
                match eval_expr_s(*a, env) {
                    Err(e) => Err(e),
                    Ok(x) => match eval_expr_s(*b, env) {
                        Err(e) => Err(e),
                        Ok(y) => eval_bin_s(op, x, y),
                    },
                }
            }
        },
    }
}

/// The raw text rendering of a value spliced by `${...}`: strings splice
/// unquoted, numbers in decimal, booleans and null by name; composite
/// values are a kind error.
pub open spec fn raw_text_of(v: ValueS) -> Result<Seq<char>, EvalErr> {
    match v {
        ValueS::Null => Ok("null"@),
        ValueS::Bool(b) => Ok(if b { "true"@ } else { "false"@ }),
        ValueS::I32(n) => Ok(dec_signed(n as int)),
        ValueS::I64(n) => Ok(dec_signed(n as int)),
        ValueS::U32(n) => Ok(dec_of(n as int)),
        ValueS::U64(n) => Ok(dec_of(n as int)),
        ValueS::Str(s) => Ok(s),
        _ => Err(EvalErr::KindMismatch),
    }
}

/// The concatenated text of the maximal run of trailing text segments.
pub open spec fn trailing_text(segs: Seq<SegS>) -> Seq<char>
    decreases segs,
{
    if segs.len() == 0 {
        Seq::empty()
    } else {
        match segs.last() {
            SegS::Text(t) => trailing_text(segs.drop_last()) + t,
            SegS::Hole(_) => Seq::empty(),
        }
    }
}

/// The segments before the maximal run of trailing text segments.
pub open spec fn head_part(segs: Seq<SegS>) -> Seq<SegS>
    decreases segs,
{
    if segs.len() == 0 {
        segs
    } else {
        match segs.last() {
            SegS::Text(_) => head_part(segs.drop_last()),
            SegS::Hole(_) => segs,
        }
    }
}

/// Trimming a block's output: strip trailing whitespace of the trailing
/// literal text; if one occurrence of the separator then ends it, remove
/// that occurrence, else leave the output unchanged. Stripping applies to
/// literal text only, so a placeholder is never removed and the bind
/// sequence is never desynchronised.
pub open spec fn trim_segs(segs: Seq<SegS>, sep: Seq<char>) -> Seq<SegS> {
    let t = rstrip_ws(trailing_text(segs));
    if sep.len() > 0 && ends_with(t, sep) {
        head_part(segs).push(SegS::Text(t.take(t.len() - sep.len())))
    } else {
        segs
    }
}

/// Evaluation of one instruction: the produced segments, and whether a
/// `continue:` was reached.
pub open spec fn eval_instr_s(i: InstrS, env: Seq<(Seq<char>, ValueS)>) -> Result<
    (Seq<SegS>, bool),
    EvalErr,
>
    decreases i, 0int, 0int,
{
    match i {
        InstrS::Lit(s) => Ok((seq![SegS::Text(s)], false)),
        InstrS::RawSub(e) => match eval_expr_s(e, env) {
            Err(er) => Err(er),
            Ok(v) => match raw_text_of(v) {
                Err(er) => Err(er),
                Ok(t) => Ok((seq![SegS::Text(t)], false)),
            },
        },
        InstrS::BoundSub(e) => match eval_expr_s(e, env) {
            Err(er) => Err(er),
            Ok(v) => Ok((seq![SegS::Hole(v)], false)),
        },
        InstrS::IfBlock(c, body) => match eval_expr_s(c, env) {
            Err(er) => Err(er),
            Ok(ValueS::Bool(true)) => eval_instrs_s(body, env),
            Ok(ValueS::Bool(false)) => Ok((Seq::empty(), false)),
            Ok(_) => Err(EvalErr::KindMismatch),
        },
        InstrS::ForBlock(k, vv, e, body) => match eval_expr_s(e, env) {
            Err(er) => Err(er),
            Ok(ValueS::Array(items)) => match eval_for_arr_s(body, items, 0, k, vv, env) {
                Err(er) => Err(er),
                Ok(segs) => Ok((segs, false)),
            },
            Ok(ValueS::Object(entries)) => match eval_for_map_s(body, entries, 0, k, vv, env) {
                Err(er) => Err(er),
                Ok(segs) => Ok((segs, false)),
            },
            Ok(_) => Err(EvalErr::KindMismatch),
        },
        InstrS::Continue => Ok((Seq::empty(), true)),
        InstrS::TrimBlock(sep, body) => match eval_instrs_s(body, env) {
            Err(er) => Err(er),
            Ok((segs, c)) => Ok((trim_segs(segs, sep), c)),
        },
    }
}

/// Evaluation of a block: instructions in order, stopping at a
/// `continue:` and reporting it to the enclosing iteration.
pub open spec fn eval_instrs_s(b: Seq<InstrS>, env: Seq<(Seq<char>, ValueS)>) -> Result<
    (Seq<SegS>, bool),
    EvalErr,
>
    decreases b, 0int, 1int,
{
    if b.len() == 0 {
        Ok((Seq::empty(), false))
    } else {
        match eval_instr_s(b.first(), env) {
            Err(e) => Err(e),
            Ok((segs, cont)) => if cont {
                Ok((segs, true))
            } else {
                match eval_instrs_s(b.drop_first(), env) {
                    Err(e) => Err(e),
                    Ok((rest, c2)) => Ok((segs + rest, c2)),
                }
            },
        }
    }
}

/// The child environment of one iteration step: the loop variables
/// shadow any outer binding of the same names. An empty key name binds
/// the value alone.
pub open spec fn child_env(
    env: Seq<(Seq<char>, ValueS)>,
    k: Seq<char>,
    key: ValueS,
    vv: Seq<char>,
    item: ValueS,
) -> Seq<(Seq<char>, ValueS)> {
    if k.len() == 0 {
        env.push((vv, item))
    } else {
        env.push((k, key)).push((vv, item))
    }
}

/// Iteration over a sequence: the key variable holds the index, the
/// value variable the element. An iteration ended by `continue:`
/// contributes no segments at all.
pub open spec fn eval_for_arr_s(
    body: Seq<InstrS>,
    items: Seq<ValueS>,
    idx: int,
    k: Seq<char>,
    vv: Seq<char>,
    env: Seq<(Seq<char>, ValueS)>,
) -> Result<Seq<SegS>, EvalErr>
    recommends
        0 <= idx <= items.len() <= u64::MAX,
    decreases body, items.len() - idx, 2int,
{
    if idx < 0 || idx >= items.len() {
        Ok(Seq::empty())
    } else {
        let env2 = child_env(env, k, ValueS::U64(idx as u64), vv, items[idx]);
        match eval_instrs_s(body, env2) {
            Err(e) => Err(e),
            Ok((segs, cont)) => match eval_for_arr_s(body, items, idx + 1, k, vv, env) {
                Err(e) => Err(e),
                Ok(rest) => Ok(if cont { rest } else { segs + rest }),
            },
        }
    }
}

/// Iteration over an ordered field map: the key variable holds the field
/// name, the value variable the field value, in the map's own order.
pub open spec fn eval_for_map_s(
    body: Seq<InstrS>,
    entries: Seq<(Seq<char>, ValueS)>,
    idx: int,
    k: Seq<char>,
    vv: Seq<char>,
    env: Seq<(Seq<char>, ValueS)>,
) -> Result<Seq<SegS>, EvalErr>
    decreases body, entries.len() - idx, 2int,
{
    if idx < 0 || idx >= entries.len() {
        Ok(Seq::empty())
    } else {
        let env2 = child_env(env, k, ValueS::Str(entries[idx].0), vv, entries[idx].1);
        match eval_instrs_s(body, env2) {
            Err(e) => Err(e),
            Ok((segs, cont)) => match eval_for_map_s(body, entries, idx + 1, k, vv, env) {
                Err(e) => Err(e),
                Ok(rest) => Ok(if cont { rest } else { segs + rest }),
            },
        }
    }
}

/// The SQL text of a segment sequence: literal text verbatim, one `?`
/// per hole.
pub open spec fn render_text(segs: Seq<SegS>) -> Seq<char>
    decreases segs,
{
    if segs.len() == 0 {
        Seq::empty()
    } else {
        (match segs.first() {
            SegS::Text(t) => t,
            SegS::Hole(_) => seq!['?'],
        }) + render_text(segs.drop_first())
    }
}

/// The bind sequence of a segment sequence: the hole values, in order.
pub open spec fn binds_of(segs: Seq<SegS>) -> Seq<ValueS>
    decreases segs,
{
    if segs.len() == 0 {
        Seq::empty()
    } else {
        (match segs.first() {
            SegS::Text(_) => Seq::empty(),
            SegS::Hole(v) => seq![v],
        }) + binds_of(segs.drop_first())
    }
}

/// Full template evaluation: SQL text plus ordered bind values.
pub open spec fn eval_template_s(t: Seq<InstrS>, env: Seq<(Seq<char>, ValueS)>) -> Result<
    (Seq<char>, Seq<ValueS>),
    EvalErr,
> {
    match eval_instrs_s(t, env) {
        Err(e) => Err(e),
        Ok((segs, _)) => Ok((render_text(segs), binds_of(segs))),
    }
}

/// Occurrences of `c` in `s`.
pub open spec fn count_char(s: Seq<char>, c: char) -> int
    decreases s,
{
    if s.len() == 0 {
        0
    } else {
        (if s.first() == c {
            1int
        } else {
            0int
        }) + count_char(s.drop_first(), c)
    }
}

/// Counting distributes over concatenation.
pub proof fn lemma_count_char_concat(a: Seq<char>, b: Seq<char>, c: char)
    ensures
        count_char(a + b, c) == count_char(a, c) + count_char(b, c),
    decreases a,
{
    if a.len() == 0 {
        assert(a + b =~= b);
    } else {
        assert((a + b).drop_first() =~= a.drop_first() + b);
        lemma_count_char_concat(a.drop_first(), b, c);
    }
}

/// Injection safety, counting form: when no literal or raw text piece
/// holds the placeholder mark, the rendered SQL text holds exactly one
/// placeholder mark per bind value.
pub proof fn lemma_binds_match_placeholders(segs: Seq<SegS>)
    requires
        forall|i: int| 0 <= i < segs.len() ==> (#[trigger] segs[i] matches SegS::Text(t) ==>
            count_char(t, '?') == 0),
    ensures
        count_char(render_text(segs), '?') == binds_of(segs).len(),
    decreases segs,
{
    if segs.len() > 0 {
        let head = match segs.first() {
            SegS::Text(t) => t,
            SegS::Hole(_) => seq!['?'],
        };
        lemma_count_char_concat(head, render_text(segs.drop_first()), '?');
        assert(segs[0] == segs.first());
        match segs.first() {
            SegS::Text(t) => {
                assert(count_char(t, '?') == 0);
            },
            SegS::Hole(_) => {
                assert(count_char(seq!['?'], '?') == 1) by {
                    assert(seq!['?'].first() == '?');
                    assert(seq!['?'].drop_first() =~= Seq::<char>::empty());
                    assert(count_char(Seq::<char>::empty(), '?') == 0);
                }
            },
        }
        assert(forall|i: int| 0 <= i < segs.drop_first().len() ==> segs.drop_first()[i] == segs[i
            + 1]);
        lemma_binds_match_placeholders(segs.drop_first());
    }
}

/// Injection safety, positional form: after any prefix of the output,
/// the number of placeholder marks emitted equals the number of binds
/// accumulated, so the n-th placeholder in the SQL text corresponds to
/// the n-th entry of the bind sequence.
pub proof fn lemma_placeholder_prefix(segs: Seq<SegS>, k: int)
    requires
        forall|i: int| 0 <= i < segs.len() ==> (#[trigger] segs[i] matches SegS::Text(t) ==>
            count_char(t, '?') == 0),
        0 <= k <= segs.len(),
    ensures
        count_char(render_text(segs.take(k)), '?') == binds_of(segs.take(k)).len(),
{
    assert(forall|i: int| 0 <= i < segs.take(k).len() ==> segs.take(k)[i] == segs[i]);
    lemma_binds_match_placeholders(segs.take(k));
}

/// True when the two segment sequences carry the same literal text in
/// the same places and holes in the same places, the hole values free to
/// differ.
pub open spec fn segs_same_text(s1: Seq<SegS>, s2: Seq<SegS>) -> bool {
    s1.len() == s2.len() && forall|i: int| 0 <= i < s1.len() ==> match (
        #[trigger] s1[i],
        #[trigger] s2[i],
    ) {
        (SegS::Text(a), SegS::Text(b)) => a == b,
        (SegS::Hole(_), SegS::Hole(_)) => true,
        _ => false,
    }
}

/// Injection safety, independence form: the SQL text depends only on the
/// literal and raw text pieces and on where the holes sit, never on the
/// values bound at the holes.
pub proof fn lemma_text_independent_of_bind_values(s1: Seq<SegS>, s2: Seq<SegS>)
    requires
        segs_same_text(s1, s2),
    ensures
        render_text(s1) == render_text(s2),
        binds_of(s1).len() == binds_of(s2).len(),
    decreases s1,
{
    if s1.len() > 0 {
        assert(s1[0] == s1.first());
        assert(forall|i: int| 0 <= i < s1.drop_first().len() ==> s1.drop_first()[i] == s1[i + 1]
            && s2.drop_first()[i] == s2[i + 1]);
        lemma_text_independent_of_bind_values(s1.drop_first(), s2.drop_first());
    }
}

/// A conditional whose condition evaluates to false emits no text and
/// adds nothing to the bind sequence, whatever its block holds and even
/// if the names it mentions are bound in the environment.
pub proof fn lemma_if_false_skips_block(
    c: ExprS,
    body: Seq<InstrS>,
    env: Seq<(Seq<char>, ValueS)>,
)
    requires
        eval_expr_s(c, env) == Ok::<ValueS, EvalErr>(ValueS::Bool(false)),
    ensures
        eval_instr_s(InstrS::IfBlock(c, body), env) == Ok::<(Seq<SegS>, bool), EvalErr>(
            (Seq::empty(), false),
        ),
{
}

/// Trimming never touches a hole: the bind sequence of a trimmed block
/// equals the bind sequence of the block itself.
pub proof fn lemma_trim_keeps_binds(segs: Seq<SegS>, sep: Seq<char>)
    ensures
        binds_of(trim_segs(segs, sep)) == binds_of(segs),
{
    let t = rstrip_ws(trailing_text(segs));
    if sep.len() > 0 && ends_with(t, sep) {
        lemma_head_part_binds(segs);
        lemma_binds_push_text(head_part(segs), t.take(t.len() - sep.len()));
    }
}

/// Appending a text segment leaves the bind sequence unchanged.
proof fn lemma_binds_push_text(segs: Seq<SegS>, t: Seq<char>)
    ensures
        binds_of(segs.push(SegS::Text(t))) == binds_of(segs),
    decreases segs,
{
    assert(segs.push(SegS::Text(t)).len() == segs.len() + 1);
    if segs.len() == 0 {
        assert(segs.push(SegS::Text(t))[0] == SegS::Text(t));
        assert(segs.push(SegS::Text(t)).drop_first() =~= Seq::<SegS>::empty());
        assert(binds_of(Seq::<SegS>::empty()) =~= Seq::<ValueS>::empty());
    } else {
        assert(segs.push(SegS::Text(t))[0] == segs[0]);
        assert(segs.push(SegS::Text(t)).drop_first() =~= segs.drop_first().push(SegS::Text(t)));
        lemma_binds_push_text(segs.drop_first(), t);
    }
}

/// Dropping the trailing text run leaves the bind sequence unchanged.
proof fn lemma_head_part_binds(segs: Seq<SegS>)
    ensures
        binds_of(head_part(segs)) == binds_of(segs),
    decreases segs,
{
    if segs.len() > 0 {
        match segs.last() {
            SegS::Text(t) => {
                assert(segs =~= segs.drop_last().push(SegS::Text(t)));
                lemma_binds_push_text(segs.drop_last(), t);
                lemma_head_part_binds(segs.drop_last());
            },
            SegS::Hole(_) => {},
        }
    }
}

/// True when the expression never reads the name `n`.
pub open spec fn expr_avoids(e: ExprS, n: Seq<char>) -> bool
    decreases e,
{
    match e {
        ExprS::Lit(_) => true,
        ExprS::Var(m) => m != n,
        ExprS::Bin(_, a, b) => expr_avoids(*a, n) && expr_avoids(*b, n),
    }
}

/// True when the instruction reads `n` only inside `#{...}`: every raw
/// substitution, condition and collection expression avoids it.
pub open spec fn instr_reads_only_bound(i: InstrS, n: Seq<char>) -> bool
    decreases i, 0int,
{
    match i {
        InstrS::Lit(_) => true,
        InstrS::RawSub(e) => expr_avoids(e, n),
        InstrS::BoundSub(_) => true,
        InstrS::IfBlock(c, body) => expr_avoids(c, n) && block_reads_only_bound(body, n),
        InstrS::ForBlock(_, _, e, body) => expr_avoids(e, n) && block_reads_only_bound(body, n),
        InstrS::Continue => true,
        InstrS::TrimBlock(_, body) => block_reads_only_bound(body, n),
    }
}

/// True when the whole block reads `n` only inside `#{...}`.
pub open spec fn block_reads_only_bound(b: Seq<InstrS>, n: Seq<char>) -> bool
    decreases b, 1int,
{
    if b.len() == 0 {
        true
    } else {
        instr_reads_only_bound(b.first(), n) && block_reads_only_bound(b.drop_first(), n)
    }
}

/// Blocks that read `n` only inside `#{...}` concatenate to one.
pub proof fn lemma_only_bound_concat(a: Seq<InstrS>, b: Seq<InstrS>, n: Seq<char>)
    requires
        block_reads_only_bound(a, n),
        block_reads_only_bound(b, n),
    ensures
        block_reads_only_bound(a + b, n),
    decreases a,
{
    if a.len() == 0 {
        assert(a + b =~= b);
    } else {
        assert((a + b).first() == a.first());
        assert((a + b).drop_first() =~= a.drop_first() + b);
        lemma_only_bound_concat(a.drop_first(), b, n);
    }
}

/// A block reads `n` only inside `#{...}` when each of its instructions
/// does.
pub proof fn lemma_only_bound_from_each(b: Seq<InstrS>, n: Seq<char>)
    requires
        forall|i: int| 0 <= i < b.len() ==> #[trigger] instr_reads_only_bound(b[i], n),
    ensures
        block_reads_only_bound(b, n),
    decreases b,
{
    if b.len() > 0 {
        assert(instr_reads_only_bound(b[0], n));
        assert(forall|i: int| 0 <= i < b.drop_first().len() ==> #[trigger] b.drop_first()[i] == b[
            i + 1
        ]);
        lemma_only_bound_from_each(b.drop_first(), n);
    }
}

/// True when the two environments bind the same names in the same order,
/// with equal values wherever the name is not `n`.
pub open spec fn envs_agree_except(
    e1: Seq<(Seq<char>, ValueS)>,
    e2: Seq<(Seq<char>, ValueS)>,
    n: Seq<char>,
) -> bool {
    e1.len() == e2.len() && forall|i: int| 0 <= i < e1.len() ==> #[trigger] e1[i].0 == e2[i].0 && (
    e1[i].0 != n ==> e1[i].1 == e2[i].1)
}

/// A name other than `n` looks up alike in agreeing environments.
proof fn lemma_lookup_agree(
    e1: Seq<(Seq<char>, ValueS)>,
    e2: Seq<(Seq<char>, ValueS)>,
    n: Seq<char>,
    m: Seq<char>,
)
    requires
        envs_agree_except(e1, e2, n),
        m != n,
    ensures
        lookup_s(e1, m) == lookup_s(e2, m),
    decreases e1,
{
    if e1.len() > 0 {
        assert(e1[e1.len() - 1].0 == e2[e2.len() - 1].0);
        if e1.last().0 != m {
            assert(forall|i: int| 0 <= i < e1.drop_last().len() ==> e1.drop_last()[i] == e1[i]
                && e2.drop_last()[i] == e2[i]);
            lemma_lookup_agree(e1.drop_last(), e2.drop_last(), n, m);
        }
    }
}

/// An expression that avoids `n` evaluates alike in agreeing
/// environments, errors included.
proof fn lemma_expr_agree(
    e: ExprS,
    e1: Seq<(Seq<char>, ValueS)>,
    e2: Seq<(Seq<char>, ValueS)>,
    n: Seq<char>,
)
    requires
        envs_agree_except(e1, e2, n),
        expr_avoids(e, n),
    ensures
        eval_expr_s(e, e1) == eval_expr_s(e, e2),
    decreases e,
{
    match e {
        ExprS::Lit(_) => {},
        ExprS::Var(m) => {
            lemma_lookup_agree(e1, e2, n, m);
        },
        ExprS::Bin(_, a, b) => {
            lemma_expr_agree(*a, e1, e2, n);
            lemma_expr_agree(*b, e1, e2, n);
        },
    }
}

/// Same-text segment sequences concatenate to a same-text sequence.
proof fn lemma_same_text_concat(a1: Seq<SegS>, b1: Seq<SegS>, a2: Seq<SegS>, b2: Seq<SegS>)
    requires
        segs_same_text(a1, a2),
        segs_same_text(b1, b2),
    ensures
        segs_same_text(a1 + b1, a2 + b2),
{
    assert forall|i: int| 0 <= i < (a1 + b1).len() implies match (
        #[trigger] (a1 + b1)[i],
        #[trigger] (a2 + b2)[i],
    ) {
        (SegS::Text(x), SegS::Text(y)) => x == y,
        (SegS::Hole(_), SegS::Hole(_)) => true,
        _ => false,
    } by {
        if i < a1.len() {
            assert((a1 + b1)[i] == a1[i] && (a2 + b2)[i] == a2[i]);
        } else {
            assert((a1 + b1)[i] == b1[i - a1.len()] && (a2 + b2)[i] == b2[i - a1.len()]);
        }
    }
}

/// Same-text blocks have the same trailing text and same-text heads.
proof fn lemma_trailing_agree(s1: Seq<SegS>, s2: Seq<SegS>)
    requires
        segs_same_text(s1, s2),
    ensures
        trailing_text(s1) == trailing_text(s2),
        segs_same_text(head_part(s1), head_part(s2)),
    decreases s1,
{
    if s1.len() > 0 {
        assert(s1[s1.len() - 1] == s1.last() && s2[s2.len() - 1] == s2.last());
        match s1.last() {
            SegS::Text(_) => {
                assert(forall|i: int| 0 <= i < s1.drop_last().len() ==> s1.drop_last()[i] == s1[i]
                    && s2.drop_last()[i] == s2[i]);
                lemma_trailing_agree(s1.drop_last(), s2.drop_last());
            },
            SegS::Hole(_) => {},
        }
    }
}

/// Trimming same-text blocks yields same-text blocks.
proof fn lemma_trim_same_text(s1: Seq<SegS>, s2: Seq<SegS>, sep: Seq<char>)
    requires
        segs_same_text(s1, s2),
    ensures
        segs_same_text(trim_segs(s1, sep), trim_segs(s2, sep)),
{
    lemma_trailing_agree(s1, s2);
    let t = rstrip_ws(trailing_text(s1));
    if sep.len() > 0 && ends_with(t, sep) {
        let h1 = head_part(s1);
        let h2 = head_part(s2);
        let piece = SegS::Text(t.take(t.len() - sep.len()));
        assert forall|i: int| 0 <= i < h1.push(piece).len() implies match (
            #[trigger] h1.push(piece)[i],
            #[trigger] h2.push(piece)[i],
        ) {
            (SegS::Text(x), SegS::Text(y)) => x == y,
            (SegS::Hole(_), SegS::Hole(_)) => true,
            _ => false,
        } by {
            if i < h1.len() {
                assert(h1.push(piece)[i] == h1[i] && h2.push(piece)[i] == h2[i]);
            } else {
                assert(h1.push(piece)[i] == piece && h2.push(piece)[i] == piece);
            }
        }
    }
}

/// One instruction that reads `n` only inside `#{...}` produces, in
/// agreeing environments, outputs of the same text shape whenever both
/// evaluations succeed, with the same continue signal.
proof fn lemma_instr_agree(
    i: InstrS,
    e1: Seq<(Seq<char>, ValueS)>,
    e2: Seq<(Seq<char>, ValueS)>,
    n: Seq<char>,
)
    requires
        envs_agree_except(e1, e2, n),
        instr_reads_only_bound(i, n),
    ensures
        match (eval_instr_s(i, e1), eval_instr_s(i, e2)) {
            (Ok(p1), Ok(p2)) => segs_same_text(p1.0, p2.0) && p1.1 == p2.1,
            _ => true,
        },
    decreases i, 0int, 0int,
{
    match i {
        InstrS::Lit(_) => {},
        InstrS::RawSub(e) => {
            lemma_expr_agree(e, e1, e2, n);
        },
        InstrS::BoundSub(_) => {},
        InstrS::IfBlock(c, body) => {
            lemma_expr_agree(c, e1, e2, n);
            match eval_expr_s(c, e1) {
                Ok(ValueS::Bool(true)) => {
                    lemma_block_agree(body, e1, e2, n);
                },
                _ => {},
            }
        },
        InstrS::ForBlock(k, vv, e, body) => {
            lemma_expr_agree(e, e1, e2, n);
            match eval_expr_s(e, e1) {
                Ok(ValueS::Array(items)) => {
                    lemma_for_arr_agree(body, items, 0, k, vv, e1, e2, n);
                },
                Ok(ValueS::Object(entries)) => {
                    lemma_for_map_agree(body, entries, 0, k, vv, e1, e2, n);
                },
                _ => {},
            }
        },
        InstrS::Continue => {},
        InstrS::TrimBlock(sep, body) => {
            lemma_block_agree(body, e1, e2, n);
            match (eval_instrs_s(body, e1), eval_instrs_s(body, e2)) {
                (Ok(p1), Ok(p2)) => {
                    lemma_trim_same_text(p1.0, p2.0, sep);
                },
                _ => {},
            }
        },
    }
}

/// A block that reads `n` only inside `#{...}` produces, in agreeing
/// environments, outputs of the same text shape whenever both
/// evaluations succeed, with the same continue signal.
proof fn lemma_block_agree(
    b: Seq<InstrS>,
    e1: Seq<(Seq<char>, ValueS)>,
    e2: Seq<(Seq<char>, ValueS)>,
    n: Seq<char>,
)
    requires
        envs_agree_except(e1, e2, n),
        block_reads_only_bound(b, n),
    ensures
        match (eval_instrs_s(b, e1), eval_instrs_s(b, e2)) {
            (Ok(p1), Ok(p2)) => segs_same_text(p1.0, p2.0) && p1.1 == p2.1,
            _ => true,
        },
    decreases b, 0int, 1int,
{
    if b.len() > 0 {
        lemma_instr_agree(b.first(), e1, e2, n);
        match (eval_instr_s(b.first(), e1), eval_instr_s(b.first(), e2)) {
            (Ok(p1), Ok(p2)) => {
                if !p1.1 {
                    lemma_block_agree(b.drop_first(), e1, e2, n);
                    match (eval_instrs_s(b.drop_first(), e1), eval_instrs_s(b.drop_first(), e2)) {
                        (Ok(q1), Ok(q2)) => {
                            lemma_same_text_concat(p1.0, q1.0, p2.0, q2.0);
                        },
                        _ => {},
                    }
                }
            },
            _ => {},
        }
    } else {
        assert(segs_same_text(Seq::<SegS>::empty(), Seq::<SegS>::empty()));
    }
}

/// One iteration environment built from equal loop values over agreeing
/// environments agrees again.
proof fn lemma_child_env_agree(
    e1: Seq<(Seq<char>, ValueS)>,
    e2: Seq<(Seq<char>, ValueS)>,
    n: Seq<char>,
    k: Seq<char>,
    key: ValueS,
    vv: Seq<char>,
    item: ValueS,
)
    requires
        envs_agree_except(e1, e2, n),
    ensures
        envs_agree_except(child_env(e1, k, key, vv, item), child_env(e2, k, key, vv, item), n),
{
    let c1 = child_env(e1, k, key, vv, item);
    let c2 = child_env(e2, k, key, vv, item);
    assert forall|i: int| 0 <= i < c1.len() implies #[trigger] c1[i].0 == c2[i].0 && (c1[i].0 != n
        ==> c1[i].1 == c2[i].1) by {
        if i < e1.len() {
            assert(c1[i] == e1[i] && c2[i] == e2[i]);
        }
    }
}

/// Sequence iteration under the only-bound reading discipline keeps the
/// text shape, whenever both runs succeed.
proof fn lemma_for_arr_agree(
    body: Seq<InstrS>,
    items: Seq<ValueS>,
    idx: int,
    k: Seq<char>,
    vv: Seq<char>,
    e1: Seq<(Seq<char>, ValueS)>,
    e2: Seq<(Seq<char>, ValueS)>,
    n: Seq<char>,
)
    requires
        envs_agree_except(e1, e2, n),
        block_reads_only_bound(body, n),
    ensures
        match (
            eval_for_arr_s(body, items, idx, k, vv, e1),
            eval_for_arr_s(body, items, idx, k, vv, e2),
        ) {
            (Ok(s1), Ok(s2)) => segs_same_text(s1, s2),
            _ => true,
        },
    decreases body, items.len() - idx, 2int,
{
    if 0 <= idx < items.len() {
        let key = ValueS::U64(idx as u64);
        lemma_child_env_agree(e1, e2, n, k, key, vv, items[idx]);
        let c1 = child_env(e1, k, key, vv, items[idx]);
        let c2 = child_env(e2, k, key, vv, items[idx]);
        lemma_block_agree(body, c1, c2, n);
        lemma_for_arr_agree(body, items, idx + 1, k, vv, e1, e2, n);
        match (eval_instrs_s(body, c1), eval_instrs_s(body, c2)) {
            (Ok(p1), Ok(p2)) => {
                match (
                    eval_for_arr_s(body, items, idx + 1, k, vv, e1),
                    eval_for_arr_s(body, items, idx + 1, k, vv, e2),
                ) {
                    (Ok(r1), Ok(r2)) => {
                        if !p1.1 {
                            lemma_same_text_concat(p1.0, r1, p2.0, r2);
                        }
                    },
                    _ => {},
                }
            },
            _ => {},
        }
    } else {
        assert(segs_same_text(Seq::<SegS>::empty(), Seq::<SegS>::empty()));
    }
}

/// Field-map iteration under the only-bound reading discipline keeps the
/// text shape, whenever both runs succeed.
proof fn lemma_for_map_agree(
    body: Seq<InstrS>,
    entries: Seq<(Seq<char>, ValueS)>,
    idx: int,
    k: Seq<char>,
    vv: Seq<char>,
    e1: Seq<(Seq<char>, ValueS)>,
    e2: Seq<(Seq<char>, ValueS)>,
    n: Seq<char>,
)
    requires
        envs_agree_except(e1, e2, n),
        block_reads_only_bound(body, n),
    ensures
        match (
            eval_for_map_s(body, entries, idx, k, vv, e1),
            eval_for_map_s(body, entries, idx, k, vv, e2),
        ) {
            (Ok(s1), Ok(s2)) => segs_same_text(s1, s2),
            _ => true,
        },
    decreases body, entries.len() - idx, 2int,
{
    if 0 <= idx < entries.len() {
        let key = ValueS::Str(entries[idx].0);
        lemma_child_env_agree(e1, e2, n, k, key, vv, entries[idx].1);
        let c1 = child_env(e1, k, key, vv, entries[idx].1);
        let c2 = child_env(e2, k, key, vv, entries[idx].1);
        lemma_block_agree(body, c1, c2, n);
        lemma_for_map_agree(body, entries, idx + 1, k, vv, e1, e2, n);
        match (eval_instrs_s(body, c1), eval_instrs_s(body, c2)) {
            (Ok(p1), Ok(p2)) => {
                match (
                    eval_for_map_s(body, entries, idx + 1, k, vv, e1),
                    eval_for_map_s(body, entries, idx + 1, k, vv, e2),
                ) {
                    (Ok(r1), Ok(r2)) => {
                        if !p1.1 {
                            lemma_same_text_concat(p1.0, r1, p2.0, r2);
                        }
                    },
                    _ => {},
                }
            },
            _ => {},
        }
    } else {
        assert(segs_same_text(Seq::<SegS>::empty(), Seq::<SegS>::empty()));
    }
}

/// Injection safety, template form: when a template reads a name only
/// through `#{...}` substitutions, the value bound to that name never
/// reaches the SQL text — two environments that differ only in that
/// value and both evaluate successfully produce identical SQL text, with
/// bind sequences of equal length.
pub proof fn lemma_bound_name_never_in_text(
    t: Seq<InstrS>,
    e1: Seq<(Seq<char>, ValueS)>,
    e2: Seq<(Seq<char>, ValueS)>,
    n: Seq<char>,
    out1: (Seq<char>, Seq<ValueS>),
    out2: (Seq<char>, Seq<ValueS>),
)
    requires
        envs_agree_except(e1, e2, n),
        block_reads_only_bound(t, n),
        eval_template_s(t, e1) == Ok::<(Seq<char>, Seq<ValueS>), EvalErr>(out1),
        eval_template_s(t, e2) == Ok::<(Seq<char>, Seq<ValueS>), EvalErr>(out2),
    ensures
        out1.0 == out2.0,
        out1.1.len() == out2.1.len(),
{
    lemma_block_agree(t, e1, e2, n);
    match (eval_instrs_s(t, e1), eval_instrs_s(t, e2)) {
        (Ok(p1), Ok(p2)) => {
            lemma_text_independent_of_bind_values(p1.0, p2.0);
        },
        _ => {},
    }
}

/// One piece of accumulated evaluator output.
#[derive(Debug)]
pub enum Seg {
    Text(String),
    Hole(Value),
}

/// The mathematical view of a segment.
pub open spec fn view_seg(s: Seg) -> SegS {
    match s {
        Seg::Text(t) => SegS::Text(t@),
        Seg::Hole(v) => SegS::Hole(view_value(v)),
    }
}

/// The views of a segment sequence, in order.
pub open spec fn view_segs(s: Seq<Seg>) -> Seq<SegS>
    decreases s,
{
    if s.len() == 0 {
        Seq::empty()
    } else {
        seq![view_seg(s[0])] + view_segs(s.drop_first())
    }
}

/// `view_segs` maps the view over the sequence, element by element.
pub proof fn lemma_view_segs(s: Seq<Seg>)
    ensures
        view_segs(s).len() == s.len(),
        forall|i: int| 0 <= i < s.len() ==> #[trigger] view_segs(s)[i] == view_seg(s[i]),
    decreases s,
{
    if s.len() > 0 {
        lemma_view_segs(s.drop_first());
    }
}

/// Concatenating segment vectors concatenates their views.
pub proof fn lemma_view_segs_concat(a: Seq<Seg>, b: Seq<Seg>)
    ensures
        view_segs(a + b) == view_segs(a) + view_segs(b),
{
    lemma_view_segs(a + b);
    lemma_view_segs(a);
    lemma_view_segs(b);
    assert(view_segs(a + b) =~= view_segs(a) + view_segs(b));
}

impl Env {
    /// A fresh, empty environment.
    pub fn new() -> (e: Env)
        ensures
            env_of(e) == Seq::<(Seq<char>, ValueS)>::empty(),
    {
        let e = Env { items: Vec::new() };
        proof {
            lemma_view_entries(e.items@);
            assert(env_of(e) =~= Seq::<(Seq<char>, ValueS)>::empty());
        }
        e
    }

    /// Binds `name` to `v`, shadowing any earlier binding of that name.
    pub fn bind(&mut self, name: String, v: Value)
        ensures
            env_of(*final(self)) == env_of(*old(self)).push((name@, view_value(v))),
    {
        proof {
            lemma_view_entries_push(self.items@, (name, v));
        }
        let ghost gname = name;
        let ghost gv = v;
        self.items.push((name, v));
        proof {
            assert(env_of(*self) == env_of(*old(self)).push((gname@, view_value(gv))));
        }
    }

    /// A deep copy with the same bindings.
    pub fn dup(&self) -> (r: Env)
        ensures
            env_of(r) == env_of(*self),
    {
        let mut out: Vec<(String, Value)> = Vec::new();
        let mut i: usize = 0;
        while i < self.items.len()
            invariant
                i <= self.items.len(),
                out@.len() == i,
                forall|j: int| 0 <= j < i ==>
                    #[trigger] out@[j].0@ == self.items@[j].0@
                    && view_value(out@[j].1) == view_value(self.items@[j].1),
            decreases self.items.len() - i,
        {
            let k = self.items[i].0.clone();
            let v = clone_value(&self.items[i].1);
            out.push((k, v));
            i = i + 1;
        }
        proof {
            lemma_view_entries(out@);
            lemma_view_entries(self.items@);
            assert(view_entries(out@) =~= view_entries(self.items@));
        }
        Env { items: out }
    }
}

/// Looks a name up in the environment, returning a copy of its value.
fn lookup(env: &Env, name: &str) -> (r: Result<Value, EvalErr>)
    ensures
        match r {
            Ok(v) => lookup_s(env_of(*env), name@) == Some(view_value(v)),
            Err(e) => lookup_s(env_of(*env), name@) is None && e == EvalErr::Undeclared,
        },
{
    proof {
        lemma_view_entries(env.items@);
        assert(view_entries(env.items@).take(env.items@.len() as int) =~= view_entries(
            env.items@,
        ));
    }
    let mut i: usize = env.items.len();
    while i > 0
        invariant
            i <= env.items.len(),
            lookup_s(env_of(*env), name@) == lookup_s(view_entries(env.items@).take(i as int), name@),
            view_entries(env.items@).len() == env.items@.len(),
            forall|j: int| 0 <= j < env.items@.len() ==>
                #[trigger] view_entries(env.items@)[j]
                    == (env.items@[j].0@, view_value(env.items@[j].1)),
        decreases i,
    {
        i = i - 1;
        let ghost pre = view_entries(env.items@).take(i as int + 1);
        proof {
            assert(pre.last() == (env.items@[i as int].0@, view_value(env.items@[i as int].1)));
            assert(pre.drop_last() =~= view_entries(env.items@).take(i as int));
        }
        if str_eq(env.items[i].0.as_str(), name) {
            let v = clone_value(&env.items[i].1);
            return Ok(v);
        }
    }
    proof {
        assert(view_entries(env.items@).take(0) =~= Seq::<(Seq<char>, ValueS)>::empty());
    }
    Err(EvalErr::Undeclared)
}

/// True for the `Null` value.
fn is_null(v: &Value) -> (r: bool)
    ensures
        r == (view_value(*v) is Null),
{
    match v {
        Value::Null => true,
        _ => false,
    }
}

/// Value-kind-aware equality, the executable twin of [`eq_vals`].
fn value_eq(a: &Value, b: &Value) -> (r: Result<bool, EvalErr>)
    ensures
        match r {
            Ok(x) => eq_vals(view_value(*a), view_value(*b)) == Ok::<bool, EvalErr>(x),
            Err(e) => eq_vals(view_value(*a), view_value(*b)) == Err::<bool, EvalErr>(e),
        },
{
    if is_null(a) || is_null(b) {
        return Ok(is_null(a) && is_null(b));
    }
    let na = num_exec(a);
    let nb = num_exec(b);
    match (na, nb) {
        (Some(x), Some(y)) => Ok(x == y),
        _ => match (a, b) {
            (Value::Str(x), Value::Str(y)) => Ok(str_eq(x.as_str(), y.as_str())),
            (Value::Bool(x), Value::Bool(y)) => Ok(*x == *y),
            _ => Err(EvalErr::KindMismatch),
        },
    }
}

/// A non-short-circuiting binary operation, the executable twin of
/// [`eval_bin_s`].
fn eval_bin(op: BinOp, a: &Value, b: &Value) -> (r: Result<Value, EvalErr>)
    ensures
        match r {
            Ok(v) => eval_bin_s(op, view_value(*a), view_value(*b))
                == Ok::<ValueS, EvalErr>(view_value(v)),
            Err(e) => eval_bin_s(op, view_value(*a), view_value(*b)) == Err::<ValueS, EvalErr>(e),
        },
{
    match op {
        BinOp::Eq => match value_eq(a, b) {
            Ok(x) => Ok(Value::Bool(x)),
            Err(e) => Err(e),
        },
        BinOp::Ne => match value_eq(a, b) {
            Ok(x) => Ok(Value::Bool(!x)),
            Err(e) => Err(e),
        },
        BinOp::And => Err(EvalErr::KindMismatch),
        BinOp::Or => Err(EvalErr::KindMismatch),
        _ => {
            let na = num_exec(a);
            let nb = num_exec(b);
            match (na, nb) {
                (Some(x), Some(y)) => {
                    if x < i64::MIN as i128 || x > i64::MAX as i128 || y < i64::MIN as i128
                        || y > i64::MAX as i128 {
                        return Err(EvalErr::NumOverflow);
                    }
                    let res: i128 = match op {
                        BinOp::Add => x + y,
                        BinOp::Sub => x - y,
                        BinOp::Mul => {
                            proof {
                                assert(x * y <= 0x8000_0000_0000_0000i128 * 0x8000_0000_0000_0000i128
                                    && x * y >= -(0x8000_0000_0000_0000i128 * 0x8000_0000_0000_0000i128))
                                    by (nonlinear_arith)
                                    requires
                                        -0x8000_0000_0000_0000 <= x <= 0x7fff_ffff_ffff_ffff,
                                        -0x8000_0000_0000_0000 <= y <= 0x7fff_ffff_ffff_ffff;
                            }
                            x * y
                        },
                        BinOp::Div => {
                            if y == 0 {
                                return Err(EvalErr::DivByZero);
                            }
                            let xm: u64 = if x >= 0 {
                                x as u64
                            } else {
                                (-x) as u64
                            };
                            let ym: u64 = if y >= 0 {
                                y as u64
                            } else {
                                (-y) as u64
                            };
                            let q: u64 = xm / ym;
                            if (x >= 0) == (y >= 0) {
                                q as i128
                            } else {
                                -(q as i128)
                            }
                        },
                        _ => 0,
                    };
                    if res < i64::MIN as i128 || res > i64::MAX as i128 {
                        Err(EvalErr::NumOverflow)
                    } else {
                        Ok(Value::I64(res as i64))
                    }
                },
                _ => Err(EvalErr::KindMismatch),
            }
        },
    }
}

/// Expression evaluation, the executable twin of [`eval_expr_s`].
fn eval_expr(e: &Expr, env: &Env) -> (r: Result<Value, EvalErr>)
    ensures
        match r {
            Ok(v) => eval_expr_s(view_expr(*e), env_of(*env))
                == Ok::<ValueS, EvalErr>(view_value(v)),
            Err(er) => eval_expr_s(view_expr(*e), env_of(*env)) == Err::<ValueS, EvalErr>(er),
        },
    decreases *e,
{
    match e {
        Expr::Lit(v) => Ok(clone_value(v)),
        Expr::Var(n) => lookup(env, n.as_str()),
        Expr::Bin(op, a, b) => {
            let o: BinOp = *op;
            if o == BinOp::And || o == BinOp::Or {
                match eval_expr(&*a, env) {
                    Err(er) => Err(er),
                    Ok(Value::Bool(x)) => {
                        if o == BinOp::And && !x {
                            Ok(Value::Bool(false))
                        } else if o == BinOp::Or && x {
                            Ok(Value::Bool(true))
                        } else {
                            match eval_expr(&*b, env) {
                                Err(er) => Err(er),
                                Ok(Value::Bool(y)) => Ok(Value::Bool(y)),
                                Ok(_) => Err(EvalErr::KindMismatch),
                            }
                        }
                    },
                    Ok(_) => Err(EvalErr::KindMismatch),
                }
            } else {
                match eval_expr(&*a, env) {
                    Err(er) => Err(er),
                    Ok(x) => match eval_expr(&*b, env) {
                        Err(er) => Err(er),
                        Ok(y) => eval_bin(o, &x, &y),
                    },
                }
            }
        },
    }
}

/// The raw text rendering of a value, the executable twin of
/// [`raw_text_of`].
fn raw_text(v: &Value) -> (r: Result<String, EvalErr>)
    ensures
        match r {
            Ok(s) => raw_text_of(view_value(*v)) == Ok::<Seq<char>, EvalErr>(s@),
            Err(e) => raw_text_of(view_value(*v)) == Err::<Seq<char>, EvalErr>(e),
        },
{
    match v {
        Value::Null => Ok(String::from_str("null")),
        Value::Bool(b) => Ok(
            if *b {
                String::from_str("true")
            } else {
                String::from_str("false")
            },
        ),
        Value::I32(n) => {
            let mut s = String::new();
            push_dec_i64(*n as i64, &mut s);
            proof {
                assert(s@ =~= dec_signed(*n as int));
            }
            Ok(s)
        },
        Value::I64(n) => {
            let mut s = String::new();
            push_dec_i64(*n, &mut s);
            proof {
                assert(s@ =~= dec_signed(*n as int));
            }
            Ok(s)
        },
        Value::U32(n) => {
            let mut s = String::new();
            push_dec_u64(*n as u64, &mut s);
            proof {
                assert(s@ =~= dec_of(*n as int));
            }
            Ok(s)
        },
        Value::U64(n) => {
            let mut s = String::new();
            push_dec_u64(*n, &mut s);
            proof {
                assert(s@ =~= dec_of(*n as int));
            }
            Ok(s)
        },
        Value::Str(s) => Ok(s.clone()),
        _ => Err(EvalErr::KindMismatch),
    }
}

/// The concatenated text of an all-text segment run, front to back.
pub open spec fn concat_texts(s: Seq<SegS>) -> Seq<char>
    decreases s,
{
    if s.len() == 0 {
        Seq::empty()
    } else {
        (match s.first() {
            SegS::Text(t) => t,
            SegS::Hole(_) => Seq::empty(),
        }) + concat_texts(s.drop_first())
    }
}

/// Appending a text segment appends its text.
proof fn lemma_concat_texts_push(s: Seq<SegS>, t: Seq<char>)
    ensures
        concat_texts(s.push(SegS::Text(t))) == concat_texts(s) + t,
    decreases s,
{
    let p = s.push(SegS::Text(t));
    assert(p.len() == s.len() + 1);
    if s.len() == 0 {
        assert(p.first() == SegS::Text(t));
        assert(p.drop_first() =~= Seq::<SegS>::empty());
        assert(concat_texts(Seq::<SegS>::empty()) == Seq::<char>::empty());
        assert(concat_texts(p) == t + Seq::<char>::empty());
        assert(concat_texts(p) =~= concat_texts(s) + t);
    } else {
        assert(p.first() == s.first());
        assert(p.drop_first() =~= s.drop_first().push(SegS::Text(t)));
        lemma_concat_texts_push(s.drop_first(), t);
        assert(concat_texts(p.drop_first()) == concat_texts(s.drop_first()) + t);
        let piece = match s.first() {
            SegS::Text(x) => x,
            SegS::Hole(_) => Seq::<char>::empty(),
        };
        assert(concat_texts(p) == piece + (concat_texts(s.drop_first()) + t));
        assert(concat_texts(s) == piece + concat_texts(s.drop_first()));
        assert(piece + (concat_texts(s.drop_first()) + t) =~= (piece + concat_texts(
            s.drop_first(),
        )) + t);
    }
}

/// Splitting at the start of the trailing text run: the head keeps every
/// segment before it, and the trailing text is the concatenation of the
/// run's texts.
proof fn lemma_trailing_decomp(s: Seq<SegS>, start: int)
    requires
        0 <= start <= s.len(),
        forall|i: int| start <= i < s.len() ==> #[trigger] s[i] is Text,
        start > 0 ==> s[start - 1] is Hole,
    ensures
        head_part(s) == s.take(start),
        trailing_text(s) == concat_texts(s.skip(start)),
    decreases s.len() - start,
{
    if s.len() == start {
        assert(s.skip(start) =~= Seq::<SegS>::empty());
        if start > 0 {
            assert(s.last() == s[start - 1]);
        }
        assert(head_part(s) =~= s.take(start));
    } else {
        let d = s.drop_last();
        assert(s.last() == s[s.len() - 1]);
        let t = s.last()->Text_0;
        assert(forall|i: int| start <= i < d.len() ==> #[trigger] d[i] == s[i]);
        if start > 0 {
            assert(d[start - 1] == s[start - 1]);
        }
        lemma_trailing_decomp(d, start);
        assert(s.skip(start) =~= d.skip(start).push(SegS::Text(t)));
        lemma_concat_texts_push(d.skip(start), t);
        assert(head_part(s) == head_part(d));
        assert(d.take(start) =~= s.take(start));
    }
}

/// The first index of the maximal trailing run of text segments at or
/// below `i`.
fn run_start(segs: &Vec<Seg>, i: usize) -> (r: usize)
    requires
        i <= segs@.len(),
        forall|j: int| i <= j < segs@.len() ==> #[trigger] view_segs(segs@)[j] is Text,
    ensures
        r <= i,
        forall|j: int| r <= j < segs@.len() ==> #[trigger] view_segs(segs@)[j] is Text,
        r > 0 ==> view_segs(segs@)[r - 1] is Hole,
    decreases i,
{
    proof {
        lemma_view_segs(segs@);
    }
    if i == 0 {
        0
    } else {
        match &segs[i - 1] {
            Seg::Text(_) => run_start(segs, i - 1),
            Seg::Hole(_) => i,
        }
    }
}

/// The length of `cv` once trailing whitespace is stripped.
pub fn rstrip_len(cv: &Vec<char>, e: usize) -> (r: usize)
    requires
        e <= cv@.len(),
        rstrip_ws(cv@) == rstrip_ws(cv@.take(e as int)),
    ensures
        r <= e,
        rstrip_ws(cv@) == cv@.take(r as int),
    decreases e,
{
    if e == 0 {
        proof {
            assert(cv@.take(0) =~= Seq::<char>::empty());
        }
        0
    } else if is_ws_exec(cv[e - 1]) {
        proof {
            assert(cv@.take(e as int).last() == cv@[e - 1]);
            assert(cv@.take(e as int).drop_last() =~= cv@.take(e as int - 1));
        }
        rstrip_len(cv, e - 1)
    } else {
        proof {
            assert(cv@.take(e as int).last() == cv@[e - 1]);
        }
        e
    }
}

/// Whether `sv` ends the prefix `cv[..e]`.
fn ends_with_at(cv: &Vec<char>, e: usize, sv: &Vec<char>) -> (r: bool)
    requires
        e <= cv@.len(),
    ensures
        r == ends_with(cv@.take(e as int), sv@),
{
    let ghost u = cv@.take(e as int);
    if sv.len() > e {
        return false;
    }
    let base: usize = e - sv.len();
    let mut i: usize = 0;
    while i < sv.len()
        invariant
            i <= sv@.len(),
            sv@.len() <= e <= cv@.len(),
            base == e - sv@.len(),
            u == cv@.take(e as int),
            forall|j: int| 0 <= j < i ==> #[trigger] u.skip(base as int)[j] == sv@[j],
        decreases sv@.len() - i,
    {
        if cv[base + i] != sv[i] {
            proof {
                assert(u.skip(base as int)[i as int] == cv@[base + i as int]);
                assert(u.skip(base as int) != sv@) by {
                    if u.skip(base as int) == sv@ {
                        assert(u.skip(base as int)[i as int] == sv@[i as int]);
                    }
                }
            }
            return false;
        }
        proof {
            assert(u.skip(base as int)[i as int] == cv@[base + i as int]);
        }
        i = i + 1;
    }
    proof {
        assert(u.skip(base as int) =~= sv@);
    }
    true
}

/// Trims a block's output: strips trailing whitespace of the trailing
/// literal text and one trailing occurrence of the separator, if present.
#[verifier::loop_isolation(false)]
fn trim_block_out(segs: Vec<Seg>, sep: &str) -> (r: Vec<Seg>)
    ensures
        view_segs(r@) == trim_segs(view_segs(segs@), sep@),
{
    let ghost sv0 = view_segs(segs@);
    proof {
        lemma_view_segs(segs@);
    }
    let start = run_start(&segs, segs.len());
    proof {
        lemma_trailing_decomp(sv0, start as int);
    }
    // the concatenated trailing text
    let mut t = String::new();
    let mut j: usize = start;
    while j < segs.len()
        invariant
            start <= j <= segs@.len(),
            t@ == concat_texts(sv0.subrange(start as int, j as int)),
        decreases segs@.len() - j,
    {
        proof {
            assert(sv0.subrange(start as int, j as int + 1) =~= sv0.subrange(
                start as int,
                j as int,
            ).push(sv0[j as int]));
            assert(sv0[j as int] is Text);
        }
        match &segs[j] {
            Seg::Text(st) => {
                proof {
                    lemma_concat_texts_push(
                        sv0.subrange(start as int, j as int),
                        st@,
                    );
                }
                t.append(st.as_str());
            },
            Seg::Hole(_) => {
                proof {
                    assert(false);
                }
            },
        }
        j = j + 1;
    }
    proof {
        assert(sv0.subrange(start as int, segs@.len() as int) =~= sv0.skip(start as int));
        assert(t@ == trailing_text(sv0));
    }
    let cv = chars_vec(t.as_str());
    proof {
        assert(cv@.take(cv@.len() as int) =~= cv@);
    }
    let e = rstrip_len(&cv, cv.len());
    let sv = chars_vec(sep);
    let ghost u = rstrip_ws(trailing_text(sv0));
    proof {
        assert(u == cv@.take(e as int));
    }
    if sv.len() == 0 {
        return segs;
    }
    if !ends_with_at(&cv, e, &sv) {
        return segs;
    }
    // strip one separator occurrence off the whitespace-stripped text
    let keep: usize = e - sv.len();
    let mut ns = String::new();
    let mut p: usize = 0;
    while p < keep
        invariant
            p <= keep,
            keep <= e <= cv@.len(),
            ns@ == cv@.take(keep as int).take(p as int),
        decreases keep - p,
    {
        proof {
            assert(cv@.take(keep as int).take(p as int).push(cv@[p as int]) =~= cv@.take(
                keep as int,
            ).take(p as int + 1));
        }
        push_char(&mut ns, cv[p]);
        p = p + 1;
    }
    proof {
        assert(ns@ =~= cv@.take(keep as int));
        assert(u.take(u.len() - sep@.len()) =~= cv@.take(keep as int));
    }
    let mut out = segs;
    out.truncate(start);
    proof {
        assert(out@ =~= segs@.take(start as int));
        lemma_view_segs(segs@.take(start as int));
        assert(view_segs(segs@.take(start as int)) =~= sv0.take(start as int));
        assert(head_part(sv0) == sv0.take(start as int));
    }
    let ghost before = out@;
    let ghost nsv = ns@;
    out.push(Seg::Text(ns));
    proof {
        lemma_view_segs(out@);
        lemma_view_segs(before);
        assert(view_segs(out@) =~= sv0.take(start as int).push(SegS::Text(nsv)));
        assert(view_segs(out@) == trim_segs(sv0, sep@));
    }
    out
}

/// Evaluation of one instruction, the executable twin of [`eval_instr_s`].
#[verifier::loop_isolation(false)]
fn eval_instr(i: &Instr, env: &Env) -> (r: Result<(Vec<Seg>, bool), EvalErr>)
    ensures
        match r {
            Ok(p) => eval_instr_s(view_instr(*i), env_of(*env)) == Ok::<
                (Seq<SegS>, bool),
                EvalErr,
            >((view_segs(p.0@), p.1)),
            Err(e) => eval_instr_s(view_instr(*i), env_of(*env)) == Err::<
                (Seq<SegS>, bool),
                EvalErr,
            >(e),
        },
    decreases view_instr(*i), 0int, 0int,
{
    match i {
        Instr::Lit(s) => {
            let mut out: Vec<Seg> = Vec::new();
            out.push(Seg::Text(s.clone()));
            proof {
                lemma_view_segs(out@);
                assert(view_segs(out@) =~= seq![SegS::Text(s@)]);
            }
            Ok((out, false))
        },
        Instr::RawSub(e) => match eval_expr(e, env) {
            Err(er) => Err(er),
            Ok(v) => match raw_text(&v) {
                Err(er) => Err(er),
                Ok(t) => {
                    let ghost tv = t@;
                    let mut out: Vec<Seg> = Vec::new();
                    out.push(Seg::Text(t));
                    proof {
                        lemma_view_segs(out@);
                        assert(view_segs(out@) =~= seq![SegS::Text(tv)]);
                    }
                    Ok((out, false))
                },
            },
        },
        Instr::BoundSub(e) => match eval_expr(e, env) {
            Err(er) => Err(er),
            Ok(v) => {
                let ghost hv = view_value(v);
                let mut out: Vec<Seg> = Vec::new();
                out.push(Seg::Hole(v));
                proof {
                    lemma_view_segs(out@);
                    assert(view_segs(out@) =~= seq![SegS::Hole(hv)]);
                }
                Ok((out, false))
            },
        },
        Instr::IfBlock(c, body) => match eval_expr(c, env) {
            Err(er) => Err(er),
            Ok(v) => {
                let ghost cv = view_value(v);
                match v {
                    Value::Bool(x) => {
                        if x {
                            proof {
                                assert(view_instr(*i)->IfBlock_1 == view_instrs(body@));
                                assert(decreases_to!(view_instr(*i) => view_instr(
                                    *i,
                                )->IfBlock_1));
                                assert(view_instrs(body@).skip(0) =~= view_instrs(body@));
                            }
                            let r = eval_block(body, 0, env);
                            proof {
                                assert(view_instrs(body@).skip(0) =~= view_instrs(body@));
                            }
                            r
                        } else {
                            let out: Vec<Seg> = Vec::new();
                            proof {
                                assert(view_segs(out@) =~= Seq::<SegS>::empty());
                            }
                            Ok((out, false))
                        }
                    },
                    _ => {
                        proof {
                            assert(!(cv is Bool));
                        }
                        Err(EvalErr::KindMismatch)
                    },
                }
            },
        },
        Instr::ForBlock(k, vv, e, body) => match eval_expr(e, env) {
            Err(er) => Err(er),
            Ok(coll) => {
                let ghost collv = view_value(coll);
                let ghost bodyv = view_instrs(body@);
                let ghost env0 = env_of(*env);
                proof {
                    assert(view_instr(*i)->ForBlock_3 == bodyv);
                    assert(decreases_to!(view_instr(*i) => view_instr(*i)->ForBlock_3));
                }
                match coll {
                    Value::Array(items) => match eval_for_arr(body, &items, k, vv, env) {
                        Err(er) => Err(er),
                        Ok(acc) => Ok((acc, false)),
                    },
                    Value::Object(entries) => match eval_for_map(body, &entries, k, vv, env) {
                        Err(er) => Err(er),
                        Ok(acc) => Ok((acc, false)),
                    },
                    _ => {
                        proof {
                            assert(!(collv is Array) && !(collv is Object));
                        }
                        Err(EvalErr::KindMismatch)
                    },
                }
            },
        },
        Instr::Continue => {
            let out: Vec<Seg> = Vec::new();
            proof {
                assert(view_segs(out@) =~= Seq::<SegS>::empty());
            }
            Ok((out, true))
        },
        Instr::TrimBlock(sep, body) => {
            proof {
                assert(view_instr(*i)->TrimBlock_1 == view_instrs(body@));
                assert(decreases_to!(view_instr(*i) => view_instr(*i)->TrimBlock_1));
                assert(view_instrs(body@).skip(0) =~= view_instrs(body@));
            }
            match eval_block(body, 0, env) {
                Err(er) => Err(er),
                Ok((segs, c)) => {
                    let out = trim_block_out(segs, sep.as_str());
                    Ok((out, c))
                },
            }
        },
    }
}

/// Iteration over a sequence, the executable twin of [`eval_for_arr_s`]
/// from index zero.
#[verifier::loop_isolation(false)]
fn eval_for_arr(body: &Vec<Instr>, items: &Vec<Value>, k: &String, vv: &String, env: &Env) -> (r:
    Result<Vec<Seg>, EvalErr>)
    ensures
        match r {
            Ok(acc) => eval_for_arr_s(
                view_instrs(body@),
                view_values(items@),
                0,
                k@,
                vv@,
                env_of(*env),
            ) == Ok::<Seq<SegS>, EvalErr>(view_segs(acc@)),
            Err(er) => eval_for_arr_s(
                view_instrs(body@),
                view_values(items@),
                0,
                k@,
                vv@,
                env_of(*env),
            ) == Err::<Seq<SegS>, EvalErr>(er),
        },
    decreases view_instrs(body@), 2int, 0int,
{
    let ghost bodyv = view_instrs(body@);
    let ghost itemsv = view_values(items@);
    let ghost env0 = env_of(*env);
    proof {
        crate::value::lemma_view_values(items@);
    }
    let mut acc: Vec<Seg> = Vec::new();
    let mut j: usize = 0;
    while j < items.len()
        invariant
            j <= items@.len(),
            match eval_for_arr_s(bodyv, itemsv, j as int, k@, vv@, env0) {
                Ok(rest) => eval_for_arr_s(bodyv, itemsv, 0, k@, vv@, env0) == Ok::<
                    Seq<SegS>,
                    EvalErr,
                >(view_segs(acc@) + rest),
                Err(er) => eval_for_arr_s(bodyv, itemsv, 0, k@, vv@, env0) == Err::<
                    Seq<SegS>,
                    EvalErr,
                >(er),
            },
        decreases items@.len() - j,
    {
        let mut child = env.dup();
        if !k.as_str().is_empty() {
            child.bind(k.clone(), Value::U64(j as u64));
        }
        child.bind(vv.clone(), clone_value(&items[j]));
        proof {
            assert(env_of(child) == child_env(env0, k@, ValueS::U64(j as u64), vv@,
                itemsv[j as int]));
            assert(view_instrs(body@).skip(0) =~= bodyv);
        }
        match eval_block(body, 0, &child) {
            Err(er) => {
                return Err(er);
            },
            Ok((mut segs, cont)) => {
                let ghost segsv = view_segs(segs@);
                let ghost accv = view_segs(acc@);
                if !cont {
                    let ghost aq = acc@;
                    let ghost sq = segs@;
                    acc.append(&mut segs);
                    proof {
                        lemma_view_segs_concat(aq, sq);
                    }
                }
                proof {
                    match eval_for_arr_s(bodyv, itemsv, j as int + 1, k@, vv@, env0) {
                        Ok(rest2) => {
                            if !cont {
                                assert(accv + (segsv + rest2) =~= (accv + segsv) + rest2);
                            }
                        },
                        Err(_) => {},
                    }
                }
                j = j + 1;
            },
        }
    }
    proof {
        assert(view_segs(acc@) + Seq::<SegS>::empty() =~= view_segs(acc@));
    }
    Ok(acc)
}

/// Iteration over an ordered field map, the executable twin of
/// [`eval_for_map_s`] from index zero.
#[verifier::loop_isolation(false)]
fn eval_for_map(
    body: &Vec<Instr>,
    entries: &Vec<(String, Value)>,
    k: &String,
    vv: &String,
    env: &Env,
) -> (r: Result<Vec<Seg>, EvalErr>)
    ensures
        match r {
            Ok(acc) => eval_for_map_s(
                view_instrs(body@),
                view_entries(entries@),
                0,
                k@,
                vv@,
                env_of(*env),
            ) == Ok::<Seq<SegS>, EvalErr>(view_segs(acc@)),
            Err(er) => eval_for_map_s(
                view_instrs(body@),
                view_entries(entries@),
                0,
                k@,
                vv@,
                env_of(*env),
            ) == Err::<Seq<SegS>, EvalErr>(er),
        },
    decreases view_instrs(body@), 2int, 0int,
{
    let ghost bodyv = view_instrs(body@);
    let ghost entriesv = view_entries(entries@);
    let ghost env0 = env_of(*env);
    proof {
        lemma_view_entries(entries@);
    }
    let mut acc: Vec<Seg> = Vec::new();
    let mut j: usize = 0;
    while j < entries.len()
        invariant
            j <= entries@.len(),
            match eval_for_map_s(bodyv, entriesv, j as int, k@, vv@, env0) {
                Ok(rest) => eval_for_map_s(bodyv, entriesv, 0, k@, vv@, env0) == Ok::<
                    Seq<SegS>,
                    EvalErr,
                >(view_segs(acc@) + rest),
                Err(er) => eval_for_map_s(bodyv, entriesv, 0, k@, vv@, env0) == Err::<
                    Seq<SegS>,
                    EvalErr,
                >(er),
            },
        decreases entries@.len() - j,
    {
        let mut child = env.dup();
        if !k.as_str().is_empty() {
            child.bind(k.clone(), Value::Str(entries[j].0.clone()));
        }
        child.bind(vv.clone(), clone_value(&entries[j].1));
        proof {
            assert(env_of(child) == child_env(env0, k@, ValueS::Str(entriesv[j as int].0), vv@,
                entriesv[j as int].1));
            assert(view_instrs(body@).skip(0) =~= bodyv);
        }
        match eval_block(body, 0, &child) {
            Err(er) => {
                return Err(er);
            },
            Ok((mut segs, cont)) => {
                let ghost segsv = view_segs(segs@);
                let ghost accv = view_segs(acc@);
                if !cont {
                    let ghost aq = acc@;
                    let ghost sq = segs@;
                    acc.append(&mut segs);
                    proof {
                        lemma_view_segs_concat(aq, sq);
                    }
                }
                proof {
                    match eval_for_map_s(bodyv, entriesv, j as int + 1, k@, vv@, env0) {
                        Ok(rest2) => {
                            if !cont {
                                assert(accv + (segsv + rest2) =~= (accv + segsv) + rest2);
                            }
                        },
                        Err(_) => {},
                    }
                }
                j = j + 1;
            },
        }
    }
    proof {
        assert(view_segs(acc@) + Seq::<SegS>::empty() =~= view_segs(acc@));
    }
    Ok(acc)
}

/// Evaluation of the block tail `instrs[from..]`, the executable twin of
/// [`eval_instrs_s`].
#[verifier::loop_isolation(false)]
fn eval_block(instrs: &Vec<Instr>, from: usize, env: &Env) -> (r: Result<(Vec<Seg>, bool), EvalErr>)
    requires
        from <= instrs@.len(),
    ensures
        match r {
            Ok(p) => eval_instrs_s(view_instrs(instrs@).skip(from as int), env_of(*env)) == Ok::<
                (Seq<SegS>, bool),
                EvalErr,
            >((view_segs(p.0@), p.1)),
            Err(e) => eval_instrs_s(view_instrs(instrs@).skip(from as int), env_of(*env)) == Err::<
                (Seq<SegS>, bool),
                EvalErr,
            >(e),
        },
    decreases view_instrs(instrs@).skip(from as int), 1int, 0int,
{
    proof {
        lemma_view_instrs(instrs@);
    }
    let ghost whole = view_instrs(instrs@);
    let ghost cur = whole.skip(from as int);
    if from == instrs.len() {
        let out: Vec<Seg> = Vec::new();
        proof {
            assert(cur =~= Seq::<InstrS>::empty());
            assert(view_segs(out@) =~= Seq::<SegS>::empty());
        }
        return Ok((out, false));
    }
    proof {
        assert(cur[0] == whole[from as int]);
        assert(cur.first() == view_instr(instrs@[from as int]));
        assert(decreases_to!(cur => cur[0]));
    }
    match eval_instr(&instrs[from], env) {
        Err(e) => Err(e),
        Ok((segs, cont)) => {
            if cont {
                Ok((segs, true))
            } else {
                proof {
                    assert(decreases_to!(cur => cur.subrange(1, cur.len() as int)));
                    assert(cur.subrange(1, cur.len() as int) =~= whole.skip(from as int + 1));
                    assert(cur.drop_first() =~= whole.skip(from as int + 1));
                }
                match eval_block(instrs, from + 1, env) {
                    Err(e) => Err(e),
                    Ok((rest, c2)) => {
                        let mut segs = segs;
                        let mut rest = rest;
                        let ghost a = segs@;
                        let ghost b = rest@;
                        segs.append(&mut rest);
                        proof {
                            lemma_view_segs_concat(a, b);
                        }
                        Ok((segs, c2))
                    },
                }
            }
        },
    }
}

/// `render_text` and `binds_of` grow segment by segment.
proof fn lemma_render_push(s: Seq<SegS>, x: SegS)
    ensures
        render_text(s.push(x)) == render_text(s) + (match x {
            SegS::Text(t) => t,
            SegS::Hole(_) => seq!['?'],
        }),
        binds_of(s.push(x)) == binds_of(s) + (match x {
            SegS::Text(_) => Seq::<ValueS>::empty(),
            SegS::Hole(v) => seq![v],
        }),
    decreases s,
{
    let p = s.push(x);
    let piece = match x {
        SegS::Text(t) => t,
        SegS::Hole(_) => seq!['?'],
    };
    let bpiece = match x {
        SegS::Text(_) => Seq::<ValueS>::empty(),
        SegS::Hole(v) => seq![v],
    };
    if s.len() == 0 {
        assert(p.first() == x);
        assert(p.drop_first() =~= Seq::<SegS>::empty());
        assert(render_text(Seq::<SegS>::empty()) == Seq::<char>::empty());
        assert(binds_of(Seq::<SegS>::empty()) == Seq::<ValueS>::empty());
        assert(render_text(p) == piece + Seq::<char>::empty());
        assert(binds_of(p) == bpiece + Seq::<ValueS>::empty());
        assert(render_text(p) =~= render_text(s) + piece);
        assert(binds_of(p) =~= binds_of(s) + bpiece);
    } else {
        assert(p.first() == s.first());
        assert(p.drop_first() =~= s.drop_first().push(x));
        lemma_render_push(s.drop_first(), x);
        assert(render_text(p.drop_first()) == render_text(s.drop_first()) + piece);
        assert(binds_of(p.drop_first()) == binds_of(s.drop_first()) + bpiece);
        let sp = match s.first() {
            SegS::Text(t) => t,
            SegS::Hole(_) => seq!['?'],
        };
        let sb = match s.first() {
            SegS::Text(_) => Seq::<ValueS>::empty(),
            SegS::Hole(v) => seq![v],
        };
        assert(render_text(p) == sp + (render_text(s.drop_first()) + piece));
        assert(render_text(s) == sp + render_text(s.drop_first()));
        assert(sp + (render_text(s.drop_first()) + piece) =~= (sp + render_text(s.drop_first()))
            + piece);
        assert(binds_of(p) == sb + (binds_of(s.drop_first()) + bpiece));
        assert(binds_of(s) == sb + binds_of(s.drop_first()));
        assert(sb + (binds_of(s.drop_first()) + bpiece) =~= (sb + binds_of(s.drop_first()))
            + bpiece);
    }
}

/// Renders segments into SQL text and the bind sequence: literal text
/// verbatim, one `?` per hole, the hole values in emission order.
pub fn render(segs: &Vec<Seg>) -> (r: (String, Vec<Value>))
    ensures
        r.0@ == render_text(view_segs(segs@)),
        crate::value::view_values(r.1@) == binds_of(view_segs(segs@)),
{
    proof {
        lemma_view_segs(segs@);
    }
    let ghost sv = view_segs(segs@);
    let mut sql = String::new();
    let mut binds: Vec<Value> = Vec::new();
    proof {
        crate::value::lemma_view_values(binds@);
        assert(sv.take(0) =~= Seq::<SegS>::empty());
        assert(crate::value::view_values(binds@) =~= binds_of(sv.take(0)));
    }
    let mut i: usize = 0;
    while i < segs.len()
        invariant
            i <= segs@.len(),
            sv == view_segs(segs@),
            sv.len() == segs@.len(),
            forall|q: int| 0 <= q < segs@.len() ==> #[trigger] sv[q] == view_seg(segs@[q]),
            sql@ == render_text(sv.take(i as int)),
            crate::value::view_values(binds@) == binds_of(sv.take(i as int)),
        decreases segs@.len() - i,
    {
        proof {
            assert(sv.take(i as int + 1) =~= sv.take(i as int).push(sv[i as int]));
            lemma_render_push(sv.take(i as int), sv[i as int]);
        }
        match &segs[i] {
            Seg::Text(t) => {
                sql.append(t.as_str());
                proof {
                    assert(crate::value::view_values(binds@) + Seq::<ValueS>::empty()
                        =~= crate::value::view_values(binds@));
                }
            },
            Seg::Hole(v) => {
                sql.append("?");
                proof {
                    reveal_strlit("?");
                    assert("?"@ =~= seq!['?']);
                }
                let c = clone_value(v);
                let ghost bq = binds@;
                let ghost cv = view_value(c);
                binds.push(c);
                proof {
                    crate::value::lemma_view_values(bq);
                    crate::value::lemma_view_values(binds@);
                    assert(crate::value::view_values(binds@) =~= crate::value::view_values(bq)
                        + seq![cv]);
                }
            },
        }
        i = i + 1;
    }
    proof {
        assert(sv.take(segs@.len() as int) =~= sv);
    }
    (sql, binds)
}

/// Evaluates a compiled template against a binding environment, producing
/// the SQL text and the ordered bind values, exactly as
/// [`eval_template_s`] states. Fails when an expression references an
/// undeclared name, applies an operator to incompatible value kinds, or
/// divides by zero.
pub fn evaluate(t: &Template, env: &Env) -> (r: Result<(String, Vec<Value>), EvalErr>)
    ensures
        match r {
            Ok(p) => eval_template_s(view_template(*t), env_of(*env)) == Ok::<
                (Seq<char>, Seq<ValueS>),
                EvalErr,
            >((p.0@, crate::value::view_values(p.1@))),
            Err(e) => eval_template_s(view_template(*t), env_of(*env)) == Err::<
                (Seq<char>, Seq<ValueS>),
                EvalErr,
            >(e),
        },
{
    proof {
        assert(view_instrs(t.instrs@).skip(0) =~= view_template(*t));
    }
    match eval_block(&t.instrs, 0, env) {
        Err(e) => Err(e),
        Ok((segs, _)) => {
            let (sql, binds) = render(&segs);
            Ok((sql, binds))
        },
    }
}

} // verus!
