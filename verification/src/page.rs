//! Two-phase pagination: an optional count query, then the data query
//! with the computed offset/limit clause spliced in. The output is an
//! ordered list of `(sql, binds, is_count_result)` triples — at most two,
//! the count phase first when present.

use vstd::prelude::*;
use vstd::string::StringExecFns;
use crate::ast::{BinOp, Instr, InstrS, Template, lemma_view_instrs, lemma_view_instrs_concat,
    view_instr, view_instrs, view_template, ExprS};
use crate::crud::{mk_bin, mk_lit, mk_raw, mk_select_columns, mk_var, select_columns_s,
    lemma_triples_of, triples_match, triples_of};
use crate::error::Error;
use crate::eval::{env_of, eval_template_s, evaluate, Env};
use crate::fmtnum::{dec_of, push_dec_u64};
use crate::value::{clone_value, view_value, view_values, Value, ValueS};
use crate::ast::Expr;

verus! {

broadcast use vstd::std_specs::vec::group_vec_axioms;

/// A page descriptor: page number (counting from one), page size, the
/// total found by the count phase (filled in by the caller after that
/// query runs), and whether to run the count phase at all.
#[derive(Debug, Clone, Copy)]
pub struct PageRequest {
    pub page_no: u64,
    pub page_size: u64,
    pub total: u64,
    pub do_count: bool,
}

impl PageRequest {
    /// The derived row offset: `(page_no - 1) * page_size`.
    pub open spec fn offset_spec(&self) -> int {
        if self.page_no >= 1 {
            (self.page_no - 1) * self.page_size
        } else {
            0
        }
    }

    /// A fresh descriptor with the count phase switched on.
    pub fn new(page_no: u64, page_size: u64) -> (r: PageRequest)
        ensures
            r.page_no == page_no,
            r.page_size == page_size,
            r.total == 0,
            r.do_count,
    {
        PageRequest { page_no, page_size, total: 0, do_count: true }
    }

    /// The derived row offset, computed.
    pub fn offset(&self) -> (r: u64)
        requires
            self.offset_spec() <= u64::MAX,
        ensures
            r as int == self.offset_spec(),
    {
        if self.page_no >= 1 {
            (self.page_no - 1) * self.page_size
        } else {
            0
        }
    }
}

/// The head of the page template: the column list for the data phase, a
/// `count(1)` aggregate for the count phase.
pub open spec fn page_head_s() -> Seq<InstrS> {
    seq![
        InstrS::Lit("select "@),
        InstrS::IfBlock(
            ExprS::Bin(
                BinOp::Eq,
                Box::new(ExprS::Var("do_count"@)),
                Box::new(ExprS::Lit(ValueS::Bool(false))),
            ),
            seq![select_columns_s()],
        ),
        InstrS::IfBlock(
            ExprS::Bin(
                BinOp::Eq,
                Box::new(ExprS::Var("do_count"@)),
                Box::new(ExprS::Lit(ValueS::Bool(true))),
            ),
            seq![InstrS::Lit("count(1) as count"@)],
        ),
        InstrS::Lit(" from "@),
        InstrS::RawSub(ExprS::Var("table_name"@)),
        InstrS::Lit(" "@)
    ]
}

/// The tail of the page template: the dialect-specific limit clause,
/// spliced only in the data phase.
pub open spec fn page_tail_s() -> Seq<InstrS> {
    seq![
        InstrS::IfBlock(
            ExprS::Bin(
                BinOp::Eq,
                Box::new(ExprS::Var("do_count"@)),
                Box::new(ExprS::Lit(ValueS::Bool(false))),
            ),
            seq![InstrS::RawSub(ExprS::Var("limit_sql"@))],
        )
    ]
}

/// The default limit clause: ` limit <offset>,<page_size>`.
pub open spec fn limit_sql_s(offset: u64, page_size: u64) -> Seq<char> {
    " limit "@ + dec_of(offset as int) + ","@ + dec_of(page_size as int)
}

/// The environment of one pagination phase.
pub open spec fn page_env_s(
    params: Seq<(Seq<char>, ValueS)>,
    table: ValueS,
    name: Seq<char>,
    do_count: bool,
    page_no: u64,
    page_size: u64,
    offset: u64,
    limit: Seq<char>,
) -> Seq<(Seq<char>, ValueS)> {
    params.push(("table_name"@, ValueS::Str(name))).push(("table"@, table)).push(
        ("page_no"@, ValueS::U64(page_no)),
    ).push(("page_size"@, ValueS::U64(page_size))).push(
        ("page_offset"@, ValueS::U64(offset)),
    ).push(("limit_sql"@, ValueS::Str(limit))).push(("do_count"@, ValueS::Bool(do_count)))
}

/// What `select_page` returns: the count-phase triple (marked as a count
/// result) if and only if the descriptor asks for it, then the data-phase
/// triple with the limit clause spliced.
pub open spec fn select_page_s(
    params: Seq<(Seq<char>, ValueS)>,
    table: ValueS,
    name: Seq<char>,
    wher: Seq<InstrS>,
    pr: PageRequest,
    offset: u64,
) -> Result<Seq<(Seq<char>, Seq<ValueS>, bool)>, Error> {
    let tree = page_head_s() + wher + page_tail_s();
    let data_env = page_env_s(
        params,
        table,
        name,
        false,
        pr.page_no,
        pr.page_size,
        offset,
        limit_sql_s(offset, pr.page_size),
    );
    if pr.do_count {
        let count_env = page_env_s(params, table, name, true, pr.page_no, pr.page_size, offset, ""@);
        match eval_template_s(tree, count_env) {
            Err(e) => Err(Error::Eval(e)),
            Ok(c) => match eval_template_s(tree, data_env) {
                Err(e) => Err(Error::Eval(e)),
                Ok(d) => Ok(seq![(c.0, c.1, true), (d.0, d.1, false)]),
            },
        }
    } else {
        match eval_template_s(tree, data_env) {
            Err(e) => Err(Error::Eval(e)),
            Ok(d) => Ok(seq![(d.0, d.1, false)]),
        }
    }
}

/// Binds the fixed pagination names over a copy of the caller's
/// parameters.
fn page_env(
    params: &Env,
    table: &Value,
    table_name: &str,
    do_count: bool,
    pr: &PageRequest,
    offset: u64,
    limit: String,
) -> (r: Env)
    ensures
        env_of(r) == page_env_s(
            env_of(*params),
            view_value(*table),
            table_name@,
            do_count,
            pr.page_no,
            pr.page_size,
            offset,
            limit@,
        ),
{
    let mut env = params.dup();
    env.bind(String::from_str("table_name"), Value::Str(String::from_str(table_name)));
    env.bind(String::from_str("table"), clone_value(table));
    env.bind(String::from_str("page_no"), Value::U64(pr.page_no));
    env.bind(String::from_str("page_size"), Value::U64(pr.page_size));
    env.bind(String::from_str("page_offset"), Value::U64(offset));
    env.bind(String::from_str("limit_sql"), Value::Str(limit));
    env.bind(String::from_str("do_count"), Value::Bool(do_count));
    env
}

/// Builds the head of the page template.
fn mk_page_head(instrs: &mut Vec<Instr>)
    ensures
        view_instrs(final(instrs)@) == view_instrs(old(instrs)@) + page_head_s(),
{
    let ghost pre = instrs@;
    let mut cols: Vec<Instr> = Vec::new();
    cols.push(mk_select_columns());
    proof {
        lemma_view_instrs(cols@);
        assert(view_instrs(cols@) =~= seq![select_columns_s()]);
    }
    let mut agg: Vec<Instr> = Vec::new();
    agg.push(mk_lit("count(1) as count"));
    proof {
        lemma_view_instrs(agg@);
        assert(view_instrs(agg@) =~= seq![InstrS::Lit("count(1) as count"@)]);
    }
    instrs.push(mk_lit("select "));
    instrs.push(
        Instr::IfBlock(
            mk_bin(BinOp::Eq, mk_var("do_count"), Expr::Lit(Value::Bool(false))),
            cols,
        ),
    );
    instrs.push(
        Instr::IfBlock(mk_bin(BinOp::Eq, mk_var("do_count"), Expr::Lit(Value::Bool(true))), agg),
    );
    instrs.push(mk_lit(" from "));
    instrs.push(mk_raw("table_name"));
    instrs.push(mk_lit(" "));
    proof {
        lemma_view_instrs(instrs@);
        lemma_view_instrs(pre);
        assert(view_instrs(instrs@) =~= view_instrs(pre) + page_head_s());
    }
}

/// Builds the tail of the page template.
fn mk_page_tail(instrs: &mut Vec<Instr>)
    ensures
        view_instrs(final(instrs)@) == view_instrs(old(instrs)@) + page_tail_s(),
{
    let ghost pre = instrs@;
    let mut lim: Vec<Instr> = Vec::new();
    lim.push(mk_raw("limit_sql"));
    proof {
        lemma_view_instrs(lim@);
        assert(view_instrs(lim@) =~= seq![InstrS::RawSub(ExprS::Var("limit_sql"@))]);
    }
    instrs.push(
        Instr::IfBlock(
            mk_bin(BinOp::Eq, mk_var("do_count"), Expr::Lit(Value::Bool(false))),
            lim,
        ),
    );
    proof {
        lemma_view_instrs(instrs@);
        lemma_view_instrs(pre);
        assert(view_instrs(instrs@) =~= view_instrs(pre) + page_tail_s());
    }
}

/// The default limit clause, computed.
fn limit_sql(offset: u64, page_size: u64) -> (r: String)
    ensures
        r@ == limit_sql_s(offset, page_size),
{
    let mut s = String::from_str(" limit ");
    push_dec_u64(offset, &mut s);
    s.append(",");
    push_dec_u64(page_size, &mut s);
    proof {
        assert(s@ =~= limit_sql_s(offset, page_size));
    }
    s
}

/// Runs the two-phase pagination protocol over the select template with
/// the given WHERE clause: a count query first when the descriptor asks
/// for one, then the data query with `limit <offset>,<page_size>`
/// spliced. At most two triples come back, the count triple first and
/// alone marked as a count result.
pub fn select_page(
    pr: &PageRequest,
    table: &Value,
    table_name: &str,
    wher: Template,
    params: &Env,
) -> (r: Result<Vec<(String, Vec<Value>, bool)>, Error>)
    requires
        pr.offset_spec() <= u64::MAX,
    ensures
        match r {
            Ok(out) => select_page_s(
                env_of(*params),
                view_value(*table),
                table_name@,
                view_template(wher),
                *pr,
                pr.offset_spec() as u64,
            ) matches Ok(spec_out) && triples_match(spec_out, out@),
            Err(e) => select_page_s(
                env_of(*params),
                view_value(*table),
                table_name@,
                view_template(wher),
                *pr,
                pr.offset_spec() as u64,
            ) == Err::<Seq<(Seq<char>, Seq<ValueS>, bool)>, Error>(e),
        },
        r matches Ok(out) ==> {
            &&& pr.do_count ==> out@.len() == 2 && out@[0].2 == true && out@[1].2 == false
            &&& !pr.do_count ==> out@.len() == 1 && out@[0].2 == false
        },
{
    let ghost wherev = view_template(wher);
    let offset = pr.offset();
    proof {
        assert(offset == pr.offset_spec() as u64);
    }
    let mut instrs: Vec<Instr> = Vec::new();
    proof {
        lemma_view_instrs(instrs@);
    }
    mk_page_head(&mut instrs);
    let mut wtail = wher.instrs;
    let ghost head_seq = instrs@;
    let ghost wtail_seq = wtail@;
    instrs.append(&mut wtail);
    proof {
        lemma_view_instrs_concat(head_seq, wtail_seq);
    }
    mk_page_tail(&mut instrs);
    proof {
        assert(view_instrs(instrs@) =~= page_head_s() + wherev + page_tail_s());
    }
    let t = Template { instrs };
    proof {
        assert(view_template(t) == page_head_s() + wherev + page_tail_s());
    }
    let mut out: Vec<(String, Vec<Value>, bool)> = Vec::new();
    if pr.do_count {
        let empty_lim = String::new();
        proof {
            reveal_strlit("");
            assert(empty_lim@ =~= ""@);
        }
        let count_env = page_env(params, table, table_name, true, pr, offset, empty_lim);
        match evaluate(&t, &count_env) {
            Err(e) => {
                return Err(Error::Eval(e));
            },
            Ok(p) => {
                out.push((p.0, p.1, true));
            },
        }
    }
    let lim = limit_sql(offset, pr.page_size);
    let data_env = page_env(params, table, table_name, false, pr, offset, lim);
    match evaluate(&t, &data_env) {
        Err(e) => {
            return Err(Error::Eval(e));
        },
        Ok(p) => {
            out.push((p.0, p.1, false));
        },
    }
    proof {
        lemma_triples_of(out@);
        match select_page_s(
            env_of(*params),
            view_value(*table),
            table_name@,
            wherev,
            *pr,
            pr.offset_spec() as u64,
        ) {
            Ok(spec_out) => {
                assert(triples_of(out@) =~= spec_out);
            },
            Err(_) => {},
        }
    }
    Ok(out)
}

} // verus!
