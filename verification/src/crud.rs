//! CRUD generators: the policy layer that builds the template for each
//! operation over a named entity and evaluates it against an environment
//! made of the entity's record projection and the call parameters. Each
//! generator returns `(sql, binds, is_count_result)` triples; the flag is
//! false everywhere but in the count phase of pagination.

use vstd::prelude::*;
use crate::ast::{BinOp, Expr, ExprS, Instr, InstrS, Template, lemma_view_instrs, view_expr,
    view_instr, view_instrs, view_template};
use crate::error::{Error, EvalErr, PolicyErr};
use crate::eval::{env_of, eval_template_s, evaluate, Env};
use crate::ranges::{make_ranges, range_count, range_end};
use crate::strutil::str_eq;
use crate::value::{clone_value, lemma_view_values, view_value, view_values, Value, ValueS};

verus! {

broadcast use vstd::std_specs::vec::group_vec_axioms;

// ---------------------------------------------------------------------
// template trees
// ---------------------------------------------------------------------

/// `if k == 'id' && v == null: continue:` — the insert policy that skips
/// a null primary key field.
pub open spec fn skip_null_pk_s() -> InstrS {
    InstrS::IfBlock(
        ExprS::Bin(
            BinOp::And,
            Box::new(
                ExprS::Bin(
                    BinOp::Eq,
                    Box::new(ExprS::Var("k"@)),
                    Box::new(ExprS::Lit(ValueS::Str("id"@))),
                ),
            ),
            Box::new(
                ExprS::Bin(
                    BinOp::Eq,
                    Box::new(ExprS::Var("v"@)),
                    Box::new(ExprS::Lit(ValueS::Null)),
                ),
            ),
        ),
        seq![InstrS::Continue],
    )
}

/// `trim ',': for k,v in table: <skip null pk> ${k},` — the column list
/// of one record, skipping a null primary key.
pub open spec fn insert_columns_s() -> InstrS {
    InstrS::TrimBlock(
        ","@,
        seq![
            InstrS::ForBlock(
                "k"@,
                "v"@,
                ExprS::Var("table"@),
                seq![skip_null_pk_s(), InstrS::RawSub(ExprS::Var("k"@)), InstrS::Lit(","@)],
            )
        ],
    )
}

/// `trim ',': for k,v in table: <skip null pk> #{v},` — the bound values
/// of one record, skipping a null primary key.
pub open spec fn insert_values_s() -> InstrS {
    InstrS::TrimBlock(
        ","@,
        seq![
            InstrS::ForBlock(
                "k"@,
                "v"@,
                ExprS::Var("table"@),
                seq![skip_null_pk_s(), InstrS::BoundSub(ExprS::Var("v"@)), InstrS::Lit(","@)],
            )
        ],
    )
}

/// The insert template: column list from the first record, then one
/// VALUES tuple per record of the chunk.
pub open spec fn insert_tree_s() -> Seq<InstrS> {
    seq![
        InstrS::Lit("insert into "@),
        InstrS::RawSub(ExprS::Var("table_name"@)),
        InstrS::Lit(" "@),
        InstrS::TrimBlock(
            ","@,
            seq![
                InstrS::ForBlock(
                    "idx"@,
                    "table"@,
                    ExprS::Var("tables"@),
                    seq![
                        InstrS::IfBlock(
                            ExprS::Bin(
                                BinOp::Eq,
                                Box::new(ExprS::Var("idx"@)),
                                Box::new(ExprS::Lit(ValueS::I64(0))),
                            ),
                            seq![
                                InstrS::Lit("("@),
                                insert_columns_s(),
                                InstrS::Lit(") VALUES "@)
                            ],
                        ),
                        InstrS::Lit("("@),
                        insert_values_s(),
                        InstrS::Lit("),"@)
                    ],
                )
            ],
        )
    ]
}

/// `trim ',': for k,_ in table: ${k},` — the full column list of a
/// record, used by the select forms.
pub open spec fn select_columns_s() -> InstrS {
    InstrS::TrimBlock(
        ","@,
        seq![
            InstrS::ForBlock(
                "k"@,
                "_"@,
                ExprS::Var("table"@),
                seq![InstrS::RawSub(ExprS::Var("k"@)), InstrS::Lit(","@)],
            )
        ],
    )
}

/// `select <columns> from <table_name>` — the base select template.
pub open spec fn select_base_s() -> Seq<InstrS> {
    seq![
        InstrS::Lit("select "@),
        select_columns_s(),
        InstrS::Lit(" from "@),
        InstrS::RawSub(ExprS::Var("table_name"@)),
        InstrS::Lit(" "@)
    ]
}

/// ` where <column> = #{column_value}` — the single-column filter.
pub open spec fn where_eq_s() -> Seq<InstrS> {
    seq![
        InstrS::Lit(" where "@),
        InstrS::RawSub(ExprS::Var("column"@)),
        InstrS::Lit(" = "@),
        InstrS::BoundSub(ExprS::Var("column_value"@))
    ]
}

/// ` where <column> in (#{..},...)` — the membership filter. The select
/// form carries a leading space; the delete form does not.
pub open spec fn where_in_s(lead: bool) -> Seq<InstrS> {
    seq![
        InstrS::Lit(if lead { " where "@ } else { "where "@ }),
        InstrS::RawSub(ExprS::Var("column"@)),
        InstrS::Lit(" in ("@),
        InstrS::TrimBlock(
            ","@,
            seq![
                InstrS::ForBlock(
                    "_"@,
                    "item"@,
                    ExprS::Var("column_values"@),
                    seq![InstrS::BoundSub(ExprS::Var("item"@)), InstrS::Lit(","@)],
                )
            ],
        ),
        InstrS::Lit(")"@)
    ]
}

/// The update template: `update <name> set <col>=<val>,...`, skipping the
/// filter column and every null-valued field (partial update semantics).
pub open spec fn update_tree_s() -> Seq<InstrS> {
    seq![
        InstrS::Lit("update "@),
        InstrS::RawSub(ExprS::Var("table_name"@)),
        InstrS::Lit(" set "@),
        InstrS::TrimBlock(
            ","@,
            seq![
                InstrS::ForBlock(
                    "k"@,
                    "v"@,
                    ExprS::Var("table"@),
                    seq![
                        InstrS::IfBlock(
                            ExprS::Bin(
                                BinOp::Or,
                                Box::new(
                                    ExprS::Bin(
                                        BinOp::Eq,
                                        Box::new(ExprS::Var("k"@)),
                                        Box::new(ExprS::Var("column"@)),
                                    ),
                                ),
                                Box::new(
                                    ExprS::Bin(
                                        BinOp::Eq,
                                        Box::new(ExprS::Var("v"@)),
                                        Box::new(ExprS::Lit(ValueS::Null)),
                                    ),
                                ),
                            ),
                            seq![InstrS::Continue],
                        ),
                        InstrS::RawSub(ExprS::Var("k"@)),
                        InstrS::Lit("="@),
                        InstrS::BoundSub(ExprS::Var("v"@)),
                        InstrS::Lit(","@)
                    ],
                )
            ],
        ),
        InstrS::Lit(" "@)
    ]
}

/// `where <column> = #{column_value}` — the update filter.
pub open spec fn update_filter_s() -> Seq<InstrS> {
    seq![
        InstrS::Lit("where "@),
        InstrS::RawSub(ExprS::Var("column"@)),
        InstrS::Lit(" = "@),
        InstrS::BoundSub(ExprS::Var("column_value"@))
    ]
}

/// `delete from <table_name> ` — the base delete template.
pub open spec fn delete_base_s() -> Seq<InstrS> {
    seq![
        InstrS::Lit("delete from "@),
        InstrS::RawSub(ExprS::Var("table_name"@)),
        InstrS::Lit(" "@)
    ]
}

// ---------------------------------------------------------------------
// executable tree builders
// ---------------------------------------------------------------------

/// A literal-text instruction.
pub(crate) fn mk_lit(s: &str) -> (r: Instr)
    ensures
        view_instr(r) == InstrS::Lit(s@),
{
    Instr::Lit(String::from_str(s))
}

/// A name-lookup expression.
pub(crate) fn mk_var(n: &str) -> (r: Expr)
    ensures
        view_expr(r) == ExprS::Var(n@),
{
    Expr::Var(String::from_str(n))
}

/// A raw substitution of a name.
pub(crate) fn mk_raw(n: &str) -> (r: Instr)
    ensures
        view_instr(r) == InstrS::RawSub(ExprS::Var(n@)),
{
    Instr::RawSub(mk_var(n))
}

/// A bound substitution of a name.
pub(crate) fn mk_bound(n: &str) -> (r: Instr)
    ensures
        view_instr(r) == InstrS::BoundSub(ExprS::Var(n@)),
{
    Instr::BoundSub(mk_var(n))
}

/// A binary expression.
pub(crate) fn mk_bin(op: BinOp, a: Expr, b: Expr) -> (r: Expr)
    ensures
        view_expr(r) == ExprS::Bin(op, Box::new(view_expr(a)), Box::new(view_expr(b))),
{
    let ghost av = view_expr(a);
    let ghost bv = view_expr(b);
    let r = Expr::Bin(op, Box::new(a), Box::new(b));
    proof {
        assert(view_expr(r) == ExprS::Bin(op, Box::new(av), Box::new(bv)));
    }
    r
}

/// `if k == 'id' && v == null: continue:` as an instruction.
fn mk_skip_null_pk() -> (r: Instr)
    ensures
        view_instr(r) == skip_null_pk_s(),
{
    let cond = mk_bin(
        BinOp::And,
        mk_bin(BinOp::Eq, mk_var("k"), Expr::Lit(Value::Str(String::from_str("id")))),
        mk_bin(BinOp::Eq, mk_var("v"), Expr::Lit(Value::Null)),
    );
    let mut body: Vec<Instr> = Vec::new();
    body.push(Instr::Continue);
    proof {
        lemma_view_instrs(body@);
        assert(view_instrs(body@) =~= seq![InstrS::Continue]);
    }
    Instr::IfBlock(cond, body)
}

/// The per-record field loop shared by the insert column list and the
/// VALUES tuple: `trim ',': for k,v in table: <skip null pk> <piece>,`.
fn mk_insert_field_loop(values: bool) -> (r: Instr)
    ensures
        view_instr(r) == if values {
            insert_values_s()
        } else {
            insert_columns_s()
        },
{
    let mut body: Vec<Instr> = Vec::new();
    body.push(mk_skip_null_pk());
    if values {
        body.push(mk_bound("v"));
    } else {
        body.push(mk_raw("k"));
    }
    body.push(mk_lit(","));
    proof {
        lemma_view_instrs(body@);
        if values {
            assert(view_instrs(body@) =~= seq![skip_null_pk_s(), InstrS::BoundSub(ExprS::Var("v"@)),
                InstrS::Lit(","@)]);
        } else {
            assert(view_instrs(body@) =~= seq![skip_null_pk_s(), InstrS::RawSub(ExprS::Var("k"@)),
                InstrS::Lit(","@)]);
        }
    }
    let mut floop: Vec<Instr> = Vec::new();
    floop.push(Instr::ForBlock(String::from_str("k"), String::from_str("v"), mk_var("table"), body));
    proof {
        lemma_view_instrs(floop@);
        if values {
            assert(view_instrs(floop@) =~= insert_values_s()->TrimBlock_1);
        } else {
            assert(view_instrs(floop@) =~= insert_columns_s()->TrimBlock_1);
        }
    }
    Instr::TrimBlock(String::from_str(","), floop)
}

/// The insert template.
pub fn insert_tree() -> (t: Template)
    ensures
        view_template(t) == insert_tree_s(),
{
    let mut first_row: Vec<Instr> = Vec::new();
    first_row.push(mk_lit("("));
    first_row.push(mk_insert_field_loop(false));
    first_row.push(mk_lit(") VALUES "));
    proof {
        lemma_view_instrs(first_row@);
        assert(view_instrs(first_row@) =~= seq![InstrS::Lit("("@), insert_columns_s(),
            InstrS::Lit(") VALUES "@)]);
    }
    let head_if = Instr::IfBlock(
        mk_bin(BinOp::Eq, mk_var("idx"), Expr::Lit(Value::I64(0))),
        first_row,
    );
    let mut row: Vec<Instr> = Vec::new();
    row.push(head_if);
    row.push(mk_lit("("));
    row.push(mk_insert_field_loop(true));
    row.push(mk_lit("),"));
    proof {
        lemma_view_instrs(row@);
        assert(view_instrs(row@) =~= insert_tree_s()[3]->TrimBlock_1[0]->ForBlock_3);
    }
    let mut rows: Vec<Instr> = Vec::new();
    rows.push(Instr::ForBlock(String::from_str("idx"), String::from_str("table"),
        mk_var("tables"), row));
    proof {
        lemma_view_instrs(rows@);
        assert(view_instrs(rows@) =~= insert_tree_s()[3]->TrimBlock_1);
    }
    let mut instrs: Vec<Instr> = Vec::new();
    instrs.push(mk_lit("insert into "));
    instrs.push(mk_raw("table_name"));
    instrs.push(mk_lit(" "));
    instrs.push(Instr::TrimBlock(String::from_str(","), rows));
    proof {
        lemma_view_instrs(instrs@);
        assert(view_instrs(instrs@) =~= insert_tree_s());
    }
    Template { instrs }
}

/// The record's full column list as one trim-block instruction.
pub(crate) fn mk_select_columns() -> (r: Instr)
    ensures
        view_instr(r) == select_columns_s(),
{
    let mut cols_body: Vec<Instr> = Vec::new();
    cols_body.push(mk_raw("k"));
    cols_body.push(mk_lit(","));
    proof {
        lemma_view_instrs(cols_body@);
        assert(view_instrs(cols_body@) =~= seq![InstrS::RawSub(ExprS::Var("k"@)),
            InstrS::Lit(","@)]);
    }
    let mut cols_loop: Vec<Instr> = Vec::new();
    cols_loop.push(Instr::ForBlock(String::from_str("k"), String::from_str("_"), mk_var("table"),
        cols_body));
    proof {
        lemma_view_instrs(cols_loop@);
        assert(view_instrs(cols_loop@) =~= select_columns_s()->TrimBlock_1);
    }
    Instr::TrimBlock(String::from_str(","), cols_loop)
}

/// The base select template.
fn mk_select_base(instrs: &mut Vec<Instr>)
    ensures
        view_instrs(final(instrs)@) == view_instrs(old(instrs)@) + select_base_s(),
{
    let ghost pre = instrs@;
    instrs.push(mk_lit("select "));
    instrs.push(mk_select_columns());
    instrs.push(mk_lit(" from "));
    instrs.push(mk_raw("table_name"));
    instrs.push(mk_lit(" "));
    proof {
        lemma_view_instrs(instrs@);
        lemma_view_instrs(pre);
        assert(view_instrs(instrs@) =~= view_instrs(pre) + select_base_s());
    }
}

/// ` where <column> = #{column_value}` appended to `instrs`.
fn mk_where_eq(instrs: &mut Vec<Instr>, leading_space: bool)
    ensures
        view_instrs(final(instrs)@) == view_instrs(old(instrs)@) + if leading_space {
            where_eq_s()
        } else {
            update_filter_s()
        },
{
    let ghost pre = instrs@;
    if leading_space {
        instrs.push(mk_lit(" where "));
    } else {
        instrs.push(mk_lit("where "));
    }
    instrs.push(mk_raw("column"));
    instrs.push(mk_lit(" = "));
    instrs.push(mk_bound("column_value"));
    proof {
        lemma_view_instrs(instrs@);
        lemma_view_instrs(pre);
        if leading_space {
            assert(view_instrs(instrs@) =~= view_instrs(pre) + where_eq_s());
        } else {
            assert(view_instrs(instrs@) =~= view_instrs(pre) + update_filter_s());
        }
    }
}

/// ` where <column> in (...)` appended to `instrs`.
fn mk_where_in(instrs: &mut Vec<Instr>, lead: bool)
    ensures
        view_instrs(final(instrs)@) == view_instrs(old(instrs)@) + where_in_s(lead),
{
    let ghost pre = instrs@;
    let mut item_body: Vec<Instr> = Vec::new();
    item_body.push(mk_bound("item"));
    item_body.push(mk_lit(","));
    proof {
        lemma_view_instrs(item_body@);
        assert(view_instrs(item_body@) =~= seq![InstrS::BoundSub(ExprS::Var("item"@)),
            InstrS::Lit(","@)]);
    }
    let mut item_loop: Vec<Instr> = Vec::new();
    item_loop.push(Instr::ForBlock(String::from_str("_"), String::from_str("item"),
        mk_var("column_values"), item_body));
    proof {
        lemma_view_instrs(item_loop@);
        assert(view_instrs(item_loop@) =~= where_in_s(lead)[3]->TrimBlock_1);
    }
    if lead {
        instrs.push(mk_lit(" where "));
    } else {
        instrs.push(mk_lit("where "));
    }
    instrs.push(mk_raw("column"));
    instrs.push(mk_lit(" in ("));
    instrs.push(Instr::TrimBlock(String::from_str(","), item_loop));
    instrs.push(mk_lit(")"));
    proof {
        lemma_view_instrs(instrs@);
        lemma_view_instrs(pre);
        assert(view_instrs(instrs@) =~= view_instrs(pre) + where_in_s(lead));
    }
}

/// The update template (set-clause and trailing space, without a filter).
fn mk_update_base(instrs: &mut Vec<Instr>)
    ensures
        view_instrs(final(instrs)@) == view_instrs(old(instrs)@) + update_tree_s(),
{
    let ghost pre = instrs@;
    let cond = mk_bin(
        BinOp::Or,
        mk_bin(BinOp::Eq, mk_var("k"), mk_var("column")),
        mk_bin(BinOp::Eq, mk_var("v"), Expr::Lit(Value::Null)),
    );
    let mut skip_body: Vec<Instr> = Vec::new();
    skip_body.push(Instr::Continue);
    proof {
        lemma_view_instrs(skip_body@);
        assert(view_instrs(skip_body@) =~= seq![InstrS::Continue]);
    }
    let mut set_body: Vec<Instr> = Vec::new();
    set_body.push(Instr::IfBlock(cond, skip_body));
    set_body.push(mk_raw("k"));
    set_body.push(mk_lit("="));
    set_body.push(mk_bound("v"));
    set_body.push(mk_lit(","));
    proof {
        lemma_view_instrs(set_body@);
        assert(view_instrs(set_body@) =~= update_tree_s()[3]->TrimBlock_1[0]->ForBlock_3);
    }
    let mut set_loop: Vec<Instr> = Vec::new();
    set_loop.push(Instr::ForBlock(String::from_str("k"), String::from_str("v"), mk_var("table"),
        set_body));
    proof {
        lemma_view_instrs(set_loop@);
        assert(view_instrs(set_loop@) =~= update_tree_s()[3]->TrimBlock_1);
    }
    instrs.push(mk_lit("update "));
    instrs.push(mk_raw("table_name"));
    instrs.push(mk_lit(" set "));
    instrs.push(Instr::TrimBlock(String::from_str(","), set_loop));
    instrs.push(mk_lit(" "));
    proof {
        lemma_view_instrs(instrs@);
        lemma_view_instrs(pre);
        assert(view_instrs(instrs@) =~= view_instrs(pre) + update_tree_s());
    }
}

/// The base delete template appended to `instrs`.
fn mk_delete_base(instrs: &mut Vec<Instr>)
    ensures
        view_instrs(final(instrs)@) == view_instrs(old(instrs)@) + delete_base_s(),
{
    let ghost pre = instrs@;
    instrs.push(mk_lit("delete from "));
    instrs.push(mk_raw("table_name"));
    instrs.push(mk_lit(" "));
    proof {
        lemma_view_instrs(instrs@);
        lemma_view_instrs(pre);
        assert(view_instrs(instrs@) =~= view_instrs(pre) + delete_base_s());
    }
}

// ---------------------------------------------------------------------
// binding environments
// ---------------------------------------------------------------------

/// The environment every generator starts from: the table name and the
/// record projection.
pub open spec fn base_env_s(table: ValueS, name: Seq<char>) -> Seq<(Seq<char>, ValueS)> {
    seq![("table_name"@, ValueS::Str(name)), ("table"@, table)]
}

/// The base environment extended with a filter column and one value.
pub open spec fn column_env_s(
    table: ValueS,
    name: Seq<char>,
    column: Seq<char>,
    value: ValueS,
) -> Seq<(Seq<char>, ValueS)> {
    base_env_s(table, name).push(("column"@, ValueS::Str(column))).push(
        ("column_value"@, value),
    )
}

/// The base environment extended with a filter column and a value list.
pub open spec fn column_list_env_s(
    table: ValueS,
    name: Seq<char>,
    column: Seq<char>,
    values: Seq<ValueS>,
) -> Seq<(Seq<char>, ValueS)> {
    base_env_s(table, name).push(("column"@, ValueS::Str(column))).push(
        ("column_values"@, ValueS::Array(values)),
    )
}

/// Builds the base environment.
fn base_env(table: &Value, table_name: &str) -> (r: Env)
    ensures
        env_of(r) == base_env_s(view_value(*table), table_name@),
{
    let mut env = Env::new();
    env.bind(String::from_str("table_name"), Value::Str(String::from_str(table_name)));
    env.bind(String::from_str("table"), clone_value(table));
    proof {
        assert(env_of(env) =~= base_env_s(view_value(*table), table_name@));
    }
    env
}

/// A copy of each value, views preserved.
fn clone_values_vec(vs: &Vec<Value>) -> (r: Vec<Value>)
    ensures
        view_values(r@) == view_values(vs@),
{
    let mut out: Vec<Value> = Vec::new();
    let mut i: usize = 0;
    while i < vs.len()
        invariant
            i <= vs@.len(),
            out@.len() == i,
            forall|j: int| 0 <= j < i ==> #[trigger] view_value(out@[j]) == view_value(vs@[j]),
        decreases vs@.len() - i,
    {
        let c = clone_value(&vs[i]);
        out.push(c);
        i = i + 1;
    }
    proof {
        lemma_view_values(out@);
        lemma_view_values(vs@);
        assert(view_values(out@) =~= view_values(vs@));
    }
    out
}

// ---------------------------------------------------------------------
// select
// ---------------------------------------------------------------------

/// What `select_all` returns: the base select template evaluated against
/// the record's column list.
pub open spec fn select_all_s(table: ValueS, name: Seq<char>) -> Result<
    (Seq<char>, Seq<ValueS>, bool),
    Error,
> {
    match eval_template_s(select_base_s(), base_env_s(table, name)) {
        Ok(p) => Ok((p.0, p.1, false)),
        Err(e) => Err(Error::Eval(e)),
    }
}

/// `select <columns> from <table>`: all rows, the column list taken from
/// the record's field order.
pub fn select_all(table: &Value, table_name: &str) -> (r: Result<(String, Vec<Value>, bool), Error>)
    ensures
        match r {
            Ok(p) => select_all_s(view_value(*table), table_name@) == Ok::<
                (Seq<char>, Seq<ValueS>, bool),
                Error,
            >((p.0@, view_values(p.1@), p.2)),
            Err(e) => select_all_s(view_value(*table), table_name@) == Err::<
                (Seq<char>, Seq<ValueS>, bool),
                Error,
            >(e),
        },
{
    let mut instrs: Vec<Instr> = Vec::new();
    proof {
        lemma_view_instrs(instrs@);
    }
    mk_select_base(&mut instrs);
    proof {
        assert(view_instrs(instrs@) =~= select_base_s());
    }
    let t = Template { instrs };
    let env = base_env(table, table_name);
    match evaluate(&t, &env) {
        Ok(p) => Ok((p.0, p.1, false)),
        Err(e) => Err(Error::Eval(e)),
    }
}

/// What `select_by_column` returns.
pub open spec fn select_by_column_s(
    table: ValueS,
    name: Seq<char>,
    column: Seq<char>,
    value: ValueS,
) -> Result<(Seq<char>, Seq<ValueS>, bool), Error> {
    match eval_template_s(select_base_s() + where_eq_s(), column_env_s(table, name, column, value)) {
        Ok(p) => Ok((p.0, p.1, false)),
        Err(e) => Err(Error::Eval(e)),
    }
}

/// `select ... where <column> = ?`, the value bound, never spliced.
pub fn select_by_column(table: &Value, table_name: &str, column: &str, column_value: &Value) -> (r:
    Result<(String, Vec<Value>, bool), Error>)
    ensures
        match r {
            Ok(p) => select_by_column_s(
                view_value(*table),
                table_name@,
                column@,
                view_value(*column_value),
            ) == Ok::<(Seq<char>, Seq<ValueS>, bool), Error>((p.0@, view_values(p.1@), p.2)),
            Err(e) => select_by_column_s(
                view_value(*table),
                table_name@,
                column@,
                view_value(*column_value),
            ) == Err::<(Seq<char>, Seq<ValueS>, bool), Error>(e),
        },
{
    let mut instrs: Vec<Instr> = Vec::new();
    proof {
        lemma_view_instrs(instrs@);
    }
    mk_select_base(&mut instrs);
    mk_where_eq(&mut instrs, true);
    proof {
        assert(view_instrs(instrs@) =~= select_base_s() + where_eq_s());
    }
    let t = Template { instrs };
    let mut env = base_env(table, table_name);
    env.bind(String::from_str("column"), Value::Str(String::from_str(column)));
    env.bind(String::from_str("column_value"), clone_value(column_value));
    match evaluate(&t, &env) {
        Ok(p) => Ok((p.0, p.1, false)),
        Err(e) => Err(Error::Eval(e)),
    }
}

/// What `select_in_column` returns.
pub open spec fn select_in_column_s(
    table: ValueS,
    name: Seq<char>,
    column: Seq<char>,
    values: Seq<ValueS>,
) -> Result<(Seq<char>, Seq<ValueS>, bool), Error> {
    match eval_template_s(
        select_base_s() + where_in_s(true),
        column_list_env_s(table, name, column, values),
    ) {
        Ok(p) => Ok((p.0, p.1, false)),
        Err(e) => Err(Error::Eval(e)),
    }
}

/// `select ... where <column> in (?,...)`, one placeholder per value.
pub fn select_in_column(
    table: &Value,
    table_name: &str,
    column: &str,
    column_values: &Vec<Value>,
) -> (r: Result<(String, Vec<Value>, bool), Error>)
    ensures
        match r {
            Ok(p) => select_in_column_s(
                view_value(*table),
                table_name@,
                column@,
                view_values(column_values@),
            ) == Ok::<(Seq<char>, Seq<ValueS>, bool), Error>((p.0@, view_values(p.1@), p.2)),
            Err(e) => select_in_column_s(
                view_value(*table),
                table_name@,
                column@,
                view_values(column_values@),
            ) == Err::<(Seq<char>, Seq<ValueS>, bool), Error>(e),
        },
{
    let mut instrs: Vec<Instr> = Vec::new();
    proof {
        lemma_view_instrs(instrs@);
    }
    mk_select_base(&mut instrs);
    mk_where_in(&mut instrs, true);
    proof {
        assert(view_instrs(instrs@) =~= select_base_s() + where_in_s(true));
    }
    let t = Template { instrs };
    let mut env = base_env(table, table_name);
    env.bind(String::from_str("column"), Value::Str(String::from_str(column)));
    env.bind(String::from_str("column_values"), Value::Array(clone_values_vec(column_values)));
    match evaluate(&t, &env) {
        Ok(p) => Ok((p.0, p.1, false)),
        Err(e) => Err(Error::Eval(e)),
    }
}

// ---------------------------------------------------------------------
// update
// ---------------------------------------------------------------------

/// The single-column select template reads `column_value` only through
/// its one `#{...}` substitution.
proof fn lemma_select_filter_only_bound()
    ensures
        crate::eval::block_reads_only_bound(select_base_s() + where_eq_s(), "column_value"@),
{
    let n = "column_value"@;
    proof_strlit_facts();
    let base = select_base_s();
    let cols_body = seq![InstrS::RawSub(ExprS::Var("k"@)), InstrS::Lit(","@)];
    assert(crate::eval::instr_reads_only_bound(cols_body[0], n));
    assert(crate::eval::instr_reads_only_bound(cols_body[1], n));
    crate::eval::lemma_only_bound_from_each(cols_body, n);
    let cols_loop = seq![
        InstrS::ForBlock("k"@, "_"@, ExprS::Var("table"@), cols_body)
    ];
    assert(crate::eval::instr_reads_only_bound(cols_loop[0], n));
    crate::eval::lemma_only_bound_from_each(cols_loop, n);
    assert(crate::eval::instr_reads_only_bound(base[0], n));
    assert(base[1] == select_columns_s());
    assert(crate::eval::instr_reads_only_bound(base[1], n));
    assert(crate::eval::instr_reads_only_bound(base[2], n));
    assert(crate::eval::instr_reads_only_bound(base[3], n));
    assert(crate::eval::instr_reads_only_bound(base[4], n));
    crate::eval::lemma_only_bound_from_each(base, n);
    let wher = where_eq_s();
    assert(crate::eval::instr_reads_only_bound(wher[0], n));
    assert(crate::eval::instr_reads_only_bound(wher[1], n));
    assert(crate::eval::instr_reads_only_bound(wher[2], n));
    assert(crate::eval::instr_reads_only_bound(wher[3], n));
    crate::eval::lemma_only_bound_from_each(wher, n);
    crate::eval::lemma_only_bound_concat(base, wher, n);
}

/// The names the select templates read, none of which is `column_value`.
proof fn proof_strlit_facts()
    ensures
        "k"@ != "column_value"@,
        "table"@ != "column_value"@,
        "table_name"@ != "column_value"@,
        "column"@ != "column_value"@,
{
    reveal_strlit("k");
    reveal_strlit("table");
    reveal_strlit("table_name");
    reveal_strlit("column");
    reveal_strlit("column_value");
    assert("k"@.len() == 1 && "table"@.len() == 5 && "table_name"@.len() == 10 && "column"@.len()
        == 6 && "column_value"@.len() == 12);
}

/// Injection safety, applied to a generator: the filter value handed to
/// `select_by_column` never reaches the SQL text — two calls differing
/// only in that value produce identical SQL, with equally many binds.
pub proof fn lemma_select_by_column_text_independent(
    table: ValueS,
    name: Seq<char>,
    column: Seq<char>,
    v1: ValueS,
    v2: ValueS,
    out1: (Seq<char>, Seq<ValueS>, bool),
    out2: (Seq<char>, Seq<ValueS>, bool),
)
    requires
        select_by_column_s(table, name, column, v1) == Ok::<
            (Seq<char>, Seq<ValueS>, bool),
            Error,
        >(out1),
        select_by_column_s(table, name, column, v2) == Ok::<
            (Seq<char>, Seq<ValueS>, bool),
            Error,
        >(out2),
    ensures
        out1.0 == out2.0,
        out1.1.len() == out2.1.len(),
{
    let n = "column_value"@;
    lemma_select_filter_only_bound();
    let env1 = column_env_s(table, name, column, v1);
    let env2 = column_env_s(table, name, column, v2);
    assert(crate::eval::envs_agree_except(env1, env2, n)) by {
        assert(env1.len() == 4 && env2.len() == 4);
        assert(env1[3].0 == n && env2[3].0 == n);
        assert(env1[0] == env2[0] && env1[1] == env2[1] && env1[2] == env2[2]);
    }
    match (
        eval_template_s(select_base_s() + where_eq_s(), env1),
        eval_template_s(select_base_s() + where_eq_s(), env2),
    ) {
        (Ok(p1), Ok(p2)) => {
            crate::eval::lemma_bound_name_never_in_text(
                select_base_s() + where_eq_s(),
                env1,
                env2,
                n,
                p1,
                p2,
            );
        },
        _ => {},
    }
}

/// What `update_by_column_value` returns: the partial-update set clause
/// (skipping the filter column and null-valued fields) plus the filter.
pub open spec fn update_by_column_value_s(
    table: ValueS,
    name: Seq<char>,
    column: Seq<char>,
    value: ValueS,
) -> Result<(Seq<char>, Seq<ValueS>, bool), Error> {
    match eval_template_s(
        update_tree_s() + update_filter_s(),
        column_env_s(table, name, column, value),
    ) {
        Ok(p) => Ok((p.0, p.1, false)),
        Err(e) => Err(Error::Eval(e)),
    }
}

/// `update <table> set <col>=?,... where <column> = ?`: only non-null
/// fields other than the filter column are written.
pub fn update_by_column_value(
    table: &Value,
    table_name: &str,
    column: &str,
    column_value: &Value,
) -> (r: Result<(String, Vec<Value>, bool), Error>)
    ensures
        match r {
            Ok(p) => update_by_column_value_s(
                view_value(*table),
                table_name@,
                column@,
                view_value(*column_value),
            ) == Ok::<(Seq<char>, Seq<ValueS>, bool), Error>((p.0@, view_values(p.1@), p.2)),
            Err(e) => update_by_column_value_s(
                view_value(*table),
                table_name@,
                column@,
                view_value(*column_value),
            ) == Err::<(Seq<char>, Seq<ValueS>, bool), Error>(e),
        },
{
    let mut instrs: Vec<Instr> = Vec::new();
    proof {
        lemma_view_instrs(instrs@);
    }
    mk_update_base(&mut instrs);
    mk_where_eq(&mut instrs, false);
    proof {
        assert(view_instrs(instrs@) =~= update_tree_s() + update_filter_s());
    }
    let t = Template { instrs };
    let mut env = base_env(table, table_name);
    env.bind(String::from_str("column"), Value::Str(String::from_str(column)));
    env.bind(String::from_str("column_value"), clone_value(column_value));
    match evaluate(&t, &env) {
        Ok(p) => Ok((p.0, p.1, false)),
        Err(e) => Err(Error::Eval(e)),
    }
}

/// The first field of that name, `Null` when absent or when the record
/// is not a field map.
pub open spec fn field_of(entries: Seq<(Seq<char>, ValueS)>, name: Seq<char>) -> ValueS
    decreases entries,
{
    if entries.len() == 0 {
        ValueS::Null
    } else if entries.first().0 == name {
        entries.first().1
    } else {
        field_of(entries.drop_first(), name)
    }
}

/// The filter value a record holds for a column.
pub open spec fn record_field_s(table: ValueS, name: Seq<char>) -> ValueS {
    match table {
        ValueS::Object(entries) => field_of(entries, name),
        _ => ValueS::Null,
    }
}

/// What `update_by_column` returns: the update filtered on the record's
/// own value for the column.
pub open spec fn update_by_column_s(table: ValueS, name: Seq<char>, column: Seq<char>) -> Result<
    (Seq<char>, Seq<ValueS>, bool),
    Error,
> {
    update_by_column_value_s(table, name, column, record_field_s(table, column))
}

/// Reads the record's own value for `column` and updates by it.
#[verifier::loop_isolation(false)]
pub fn update_by_column(table: &Value, table_name: &str, column: &str) -> (r: Result<
    (String, Vec<Value>, bool),
    Error,
>)
    ensures
        match r {
            Ok(p) => update_by_column_s(view_value(*table), table_name@, column@) == Ok::<
                (Seq<char>, Seq<ValueS>, bool),
                Error,
            >((p.0@, view_values(p.1@), p.2)),
            Err(e) => update_by_column_s(view_value(*table), table_name@, column@) == Err::<
                (Seq<char>, Seq<ValueS>, bool),
                Error,
            >(e),
        },
{
    let value = record_field(table, column);
    update_by_column_value(table, table_name, column, &value)
}

/// Reads the first field named `name`, `Null` when absent.
#[verifier::loop_isolation(false)]
fn record_field(table: &Value, name: &str) -> (r: Value)
    ensures
        view_value(r) == record_field_s(view_value(*table), name@),
{
    match table {
        Value::Object(entries) => {
            let ghost ev = crate::value::view_entries(entries@);
            proof {
                crate::value::lemma_view_entries(entries@);
                assert(ev.skip(0) =~= ev);
            }
            let mut i: usize = 0;
            while i < entries.len()
                invariant
                    i <= entries@.len(),
                    field_of(ev, name@) == field_of(ev.skip(i as int), name@),
                decreases entries@.len() - i,
            {
                proof {
                    assert(ev.skip(i as int).first() == ev[i as int]);
                    assert(ev.skip(i as int).drop_first() =~= ev.skip(i as int + 1));
                }
                if str_eq(entries[i].0.as_str(), name) {
                    return clone_value(&entries[i].1);
                }
                i = i + 1;
            }
            proof {
                assert(ev.skip(entries@.len() as int) =~= Seq::<(Seq<char>, ValueS)>::empty());
            }
            Value::Null
        },
        _ => Value::Null,
    }
}

/// What `update_by_column_batch` returns: one update statement per
/// record, in order; a zero batch size is a fatal input error.
pub open spec fn update_batch_items_s(
    tables: Seq<ValueS>,
    name: Seq<char>,
    column: Seq<char>,
    i: int,
) -> Result<Seq<(Seq<char>, Seq<ValueS>, bool)>, Error>
    decreases tables.len() - i,
{
    if i < 0 || i >= tables.len() {
        Ok(Seq::empty())
    } else {
        match update_by_column_s(tables[i], name, column) {
            Err(e) => Err(e),
            Ok(tr) => match update_batch_items_s(tables, name, column, i + 1) {
                Err(e) => Err(e),
                Ok(rest) => Ok(seq![tr] + rest),
            },
        }
    }
}

/// What `update_by_column_batch` returns.
pub open spec fn update_by_column_batch_s(
    tables: Seq<ValueS>,
    name: Seq<char>,
    column: Seq<char>,
    batch_size: u64,
) -> Result<Seq<(Seq<char>, Seq<ValueS>, bool)>, Error> {
    if batch_size == 0 {
        Err(Error::Eval(EvalErr::ZeroBatchSize))
    } else {
        update_batch_items_s(tables, name, column, 0)
    }
}

/// One update statement per record of the batch, chunk after chunk.
#[verifier::loop_isolation(false)]
pub fn update_by_column_batch(tables: &Vec<Value>, table_name: &str, column: &str, batch_size: u64)
    -> (r: Result<Vec<(String, Vec<Value>, bool)>, Error>)
    ensures
        match r {
            Ok(out) => update_by_column_batch_s(view_values(tables@), table_name@, column@,
                batch_size) matches Ok(spec_out) && triples_match(spec_out, out@),
            Err(e) => update_by_column_batch_s(view_values(tables@), table_name@, column@,
                batch_size) == Err::<Seq<(Seq<char>, Seq<ValueS>, bool)>, Error>(e),
        },
{
    if batch_size == 0 {
        return Err(Error::Eval(EvalErr::ZeroBatchSize));
    }
    let ghost tv = view_values(tables@);
    proof {
        lemma_view_values(tables@);
    }
    let mut out: Vec<(String, Vec<Value>, bool)> = Vec::new();
    let mut i: usize = 0;
    while i < tables.len()
        invariant
            i <= tables@.len(),
            match update_batch_items_s(tv, table_name@, column@, i as int) {
                Ok(rest) => update_batch_items_s(tv, table_name@, column@, 0) matches Ok(whole)
                    && whole == triples_of(out@) + rest,
                Err(e) => update_batch_items_s(tv, table_name@, column@, 0) == Err::<
                    Seq<(Seq<char>, Seq<ValueS>, bool)>,
                    Error,
                >(e),
            },
        decreases tables@.len() - i,
    {
        match update_by_column(&tables[i], table_name, column) {
            Err(e) => {
                return Err(e);
            },
            Ok(tr) => {
                let ghost pre = out@;
                out.push(tr);
                proof {
                    lemma_triples_push(pre, out@[out@.len() - 1]);
                    match update_batch_items_s(tv, table_name@, column@, i as int + 1) {
                        Ok(rest2) => {
                            assert(triples_of(pre) + (seq![
                                (out@[out@.len() - 1].0@, view_values(out@[out@.len() - 1].1@),
                                out@[out@.len() - 1].2)
                            ] + rest2) =~= triples_of(out@) + rest2);
                        },
                        Err(_) => {},
                    }
                }
                i = i + 1;
            },
        }
    }
    proof {
        assert(triples_of(out@) + Seq::<(Seq<char>, Seq<ValueS>, bool)>::empty() =~= triples_of(
            out@,
        ));
    }
    Ok(out)
}

/// The views of executable result triples, in order.
pub open spec fn triples_of(s: Seq<(String, Vec<Value>, bool)>) -> Seq<(Seq<char>, Seq<ValueS>, bool)>
    decreases s,
{
    if s.len() == 0 {
        Seq::empty()
    } else {
        seq![(s[0].0@, view_values(s[0].1@), s[0].2)] + triples_of(s.drop_first())
    }
}

/// True when the spec triples are exactly the views of the executable
/// triples.
pub open spec fn triples_match(
    spec_out: Seq<(Seq<char>, Seq<ValueS>, bool)>,
    out: Seq<(String, Vec<Value>, bool)>,
) -> bool {
    triples_of(out) == spec_out
}

/// `triples_of` maps the view over the sequence, element by element.
pub proof fn lemma_triples_of(s: Seq<(String, Vec<Value>, bool)>)
    ensures
        triples_of(s).len() == s.len(),
        forall|i: int| 0 <= i < s.len() ==> #[trigger] triples_of(s)[i] == (s[i].0@, view_values(
            s[i].1@,
        ), s[i].2),
    decreases s,
{
    if s.len() > 0 {
        lemma_triples_of(s.drop_first());
    }
}

/// Appending a triple appends its view.
proof fn lemma_triples_push(s: Seq<(String, Vec<Value>, bool)>, t: (String, Vec<Value>, bool))
    ensures
        triples_of(s.push(t)) == triples_of(s).push((t.0@, view_values(t.1@), t.2)),
{
    lemma_triples_of(s.push(t));
    lemma_triples_of(s);
    assert(triples_of(s.push(t)) =~= triples_of(s).push((t.0@, view_values(t.1@), t.2)));
}

// ---------------------------------------------------------------------
// delete
// ---------------------------------------------------------------------

/// What `delete_by_column` returns.
pub open spec fn delete_by_column_s(name: Seq<char>, column: Seq<char>, value: ValueS) -> Result<
    (Seq<char>, Seq<ValueS>, bool),
    Error,
> {
    match eval_template_s(
        delete_base_s() + update_filter_s(),
        column_env_s(ValueS::Null, name, column, value),
    ) {
        Ok(p) => Ok((p.0, p.1, false)),
        Err(e) => Err(Error::Eval(e)),
    }
}

/// `delete from <table> where <column> = ?`.
pub fn delete_by_column(table_name: &str, column: &str, column_value: &Value) -> (r: Result<
    (String, Vec<Value>, bool),
    Error,
>)
    ensures
        match r {
            Ok(p) => delete_by_column_s(table_name@, column@, view_value(*column_value)) == Ok::<
                (Seq<char>, Seq<ValueS>, bool),
                Error,
            >((p.0@, view_values(p.1@), p.2)),
            Err(e) => delete_by_column_s(table_name@, column@, view_value(*column_value)) == Err::<
                (Seq<char>, Seq<ValueS>, bool),
                Error,
            >(e),
        },
{
    let mut instrs: Vec<Instr> = Vec::new();
    proof {
        lemma_view_instrs(instrs@);
    }
    mk_delete_base(&mut instrs);
    mk_where_eq(&mut instrs, false);
    proof {
        assert(view_instrs(instrs@) =~= delete_base_s() + update_filter_s());
    }
    let t = Template { instrs };
    let mut env = base_env(&Value::Null, table_name);
    env.bind(String::from_str("column"), Value::Str(String::from_str(column)));
    env.bind(String::from_str("column_value"), clone_value(column_value));
    match evaluate(&t, &env) {
        Ok(p) => Ok((p.0, p.1, false)),
        Err(e) => Err(Error::Eval(e)),
    }
}

/// What `delete_in_column` returns.
pub open spec fn delete_in_column_s(name: Seq<char>, column: Seq<char>, values: Seq<ValueS>)
    -> Result<(Seq<char>, Seq<ValueS>, bool), Error> {
    match eval_template_s(
        delete_base_s() + where_in_s(false),
        column_list_env_s(ValueS::Null, name, column, values),
    ) {
        Ok(p) => Ok((p.0, p.1, false)),
        Err(e) => Err(Error::Eval(e)),
    }
}

/// `delete from <table> where <column> in (?,...)`.
pub fn delete_in_column(table_name: &str, column: &str, column_values: &Vec<Value>) -> (r: Result<
    (String, Vec<Value>, bool),
    Error,
>)
    ensures
        match r {
            Ok(p) => delete_in_column_s(table_name@, column@, view_values(column_values@)) == Ok::<
                (Seq<char>, Seq<ValueS>, bool),
                Error,
            >((p.0@, view_values(p.1@), p.2)),
            Err(e) => delete_in_column_s(table_name@, column@, view_values(column_values@))
                == Err::<(Seq<char>, Seq<ValueS>, bool), Error>(e),
        },
{
    let mut instrs: Vec<Instr> = Vec::new();
    proof {
        lemma_view_instrs(instrs@);
    }
    mk_delete_base(&mut instrs);
    mk_where_in(&mut instrs, false);
    proof {
        assert(view_instrs(instrs@) =~= delete_base_s() + where_in_s(false));
    }
    let t = Template { instrs };
    let mut env = base_env(&Value::Null, table_name);
    env.bind(String::from_str("column"), Value::Str(String::from_str(column)));
    env.bind(String::from_str("column_values"), Value::Array(clone_values_vec(column_values)));
    match evaluate(&t, &env) {
        Ok(p) => Ok((p.0, p.1, false)),
        Err(e) => Err(Error::Eval(e)),
    }
}

/// What `delete_by_column_batch` returns: one delete statement per chunk
/// of at most `batch_size` values.
pub open spec fn delete_batch_chunks_s(
    name: Seq<char>,
    column: Seq<char>,
    values: Seq<ValueS>,
    b: u64,
    i: int,
) -> Result<Seq<(Seq<char>, Seq<ValueS>, bool)>, Error>
    decreases range_count(values.len() as u64, b) - i,
{
    if b == 0 || i < 0 || i >= range_count(values.len() as u64, b) {
        Ok(Seq::empty())
    } else {
        let lo = i * (b as int);
        let hi = range_end(values.len() as u64, b, i);
        match delete_in_column_s(name, column, values.subrange(lo, hi)) {
            Err(e) => Err(e),
            Ok(tr) => match delete_batch_chunks_s(name, column, values, b, i + 1) {
                Err(e) => Err(e),
                Ok(rest) => Ok(seq![tr] + rest),
            },
        }
    }
}

/// What `delete_by_column_batch` returns.
pub open spec fn delete_by_column_batch_s(
    name: Seq<char>,
    column: Seq<char>,
    values: Seq<ValueS>,
    batch_size: u64,
) -> Result<Seq<(Seq<char>, Seq<ValueS>, bool)>, Error> {
    if batch_size == 0 {
        Err(Error::Eval(EvalErr::ZeroBatchSize))
    } else {
        delete_batch_chunks_s(name, column, values, batch_size, 0)
    }
}

/// Splits the values into chunks of at most `batch_size` and emits one
/// delete statement per chunk.
#[verifier::loop_isolation(false)]
pub fn delete_by_column_batch(
    table_name: &str,
    column: &str,
    values: &Vec<Value>,
    batch_size: u64,
) -> (r: Result<Vec<(String, Vec<Value>, bool)>, Error>)
    ensures
        match r {
            Ok(out) => delete_by_column_batch_s(table_name@, column@, view_values(values@),
                batch_size) matches Ok(spec_out) && triples_match(spec_out, out@),
            Err(e) => delete_by_column_batch_s(table_name@, column@, view_values(values@),
                batch_size) == Err::<Seq<(Seq<char>, Seq<ValueS>, bool)>, Error>(e),
        },
{
    let ghost vv = view_values(values@);
    proof {
        lemma_view_values(values@);
    }
    let total: u64 = values.len() as u64;
    let ranges = match make_ranges(total, batch_size) {
        Err(e) => {
            return Err(e);
        },
        Ok(rs) => rs,
    };
    let mut out: Vec<(String, Vec<Value>, bool)> = Vec::new();
    let mut i: usize = 0;
    while i < ranges.len()
        invariant
            i <= ranges@.len(),
            batch_size > 0,
            total == values@.len(),
            vv == view_values(values@),
            vv.len() == values@.len(),
            ranges@.len() == range_count(total, batch_size),
            forall|q: int| 0 <= q < ranges@.len() ==> #[trigger] ranges@[q].0 as int == q * (
            batch_size as int),
            forall|q: int| 0 <= q < ranges@.len() ==> #[trigger] ranges@[q].1 as int == range_end(
                total,
                batch_size,
                q,
            ),
            match delete_batch_chunks_s(table_name@, column@, vv, batch_size, i as int) {
                Ok(rest) => delete_batch_chunks_s(table_name@, column@, vv, batch_size, 0)
                    matches Ok(whole) && whole == triples_of(out@) + rest,
                Err(e) => delete_batch_chunks_s(table_name@, column@, vv, batch_size, 0) == Err::<
                    Seq<(Seq<char>, Seq<ValueS>, bool)>,
                    Error,
                >(e),
            },
        decreases ranges@.len() - i,
    {
        let (lo, hi) = ranges[i];
        proof {
            crate::ranges::lemma_ranges_form(total, batch_size, ranges@);
        }
        let chunk = copy_chunk(values, lo as usize, hi as usize);
        proof {
            assert(view_values(chunk@) =~= vv.subrange(lo as int, hi as int));
        }
        match delete_in_column(table_name, column, &chunk) {
            Err(e) => {
                return Err(e);
            },
            Ok(tr) => {
                let ghost pre = out@;
                out.push(tr);
                proof {
                    lemma_triples_push(pre, out@[out@.len() - 1]);
                    match delete_batch_chunks_s(table_name@, column@, vv, batch_size, i as int
                        + 1) {
                        Ok(rest2) => {
                            assert(triples_of(pre) + (seq![
                                (out@[out@.len() - 1].0@, view_values(out@[out@.len() - 1].1@),
                                out@[out@.len() - 1].2)
                            ] + rest2) =~= triples_of(out@) + rest2);
                        },
                        Err(_) => {},
                    }
                }
                i = i + 1;
            },
        }
    }
    proof {
        assert(triples_of(out@) + Seq::<(Seq<char>, Seq<ValueS>, bool)>::empty() =~= triples_of(
            out@,
        ));
    }
    Ok(out)
}

/// Copies `values[lo..hi]`, views preserved.
#[verifier::loop_isolation(false)]
fn copy_chunk(values: &Vec<Value>, lo: usize, hi: usize) -> (r: Vec<Value>)
    requires
        lo <= hi <= values@.len(),
    ensures
        r@.len() == hi - lo,
        forall|j: int| 0 <= j < r@.len() ==> #[trigger] view_value(r@[j]) == view_value(
            values@[lo + j],
        ),
        view_values(r@) == view_values(values@).subrange(lo as int, hi as int),
{
    proof {
        lemma_view_values(values@);
    }
    let mut out: Vec<Value> = Vec::new();
    let mut j: usize = lo;
    while j < hi
        invariant
            lo <= j <= hi,
            out@.len() == j - lo,
            forall|q: int| 0 <= q < out@.len() ==> #[trigger] view_value(out@[q]) == view_value(
                values@[lo + q],
            ),
        decreases hi - j,
    {
        let c = clone_value(&values[j]);
        out.push(c);
        j = j + 1;
    }
    proof {
        lemma_view_values(out@);
        assert(view_values(out@) =~= view_values(values@).subrange(lo as int, hi as int));
    }
    out
}

// ---------------------------------------------------------------------
// insert
// ---------------------------------------------------------------------

/// The environment of one insert chunk.
pub open spec fn insert_env_s(chunk: Seq<ValueS>, name: Seq<char>) -> Seq<(Seq<char>, ValueS)> {
    seq![("table_name"@, ValueS::Str(name)), ("tables"@, ValueS::Array(chunk))]
}

/// What `insert_batch` returns for the chunks from `i` on.
pub open spec fn insert_chunks_s(tables: Seq<ValueS>, b: u64, name: Seq<char>, i: int) -> Result<
    Seq<(Seq<char>, Seq<ValueS>, bool)>,
    Error,
>
    decreases range_count(tables.len() as u64, b) - i,
{
    if b == 0 || i < 0 || i >= range_count(tables.len() as u64, b) {
        Ok(Seq::empty())
    } else {
        let lo = i * (b as int);
        let hi = range_end(tables.len() as u64, b, i);
        match eval_template_s(insert_tree_s(), insert_env_s(tables.subrange(lo, hi), name)) {
            Err(e) => Err(Error::Eval(e)),
            Ok(p) => match insert_chunks_s(tables, b, name, i + 1) {
                Err(e) => Err(e),
                Ok(rest) => Ok(seq![(p.0, p.1, false)] + rest),
            },
        }
    }
}

/// What `insert_batch` returns: an empty batch is a policy error, a zero
/// batch size a fatal input error; otherwise one multi-row insert
/// statement per chunk of at most `batch_size` records.
pub open spec fn insert_batch_s(tables: Seq<ValueS>, batch_size: u64, name: Seq<char>) -> Result<
    Seq<(Seq<char>, Seq<ValueS>, bool)>,
    Error,
> {
    if tables.len() == 0 {
        Err(Error::Policy(PolicyErr::EmptyBatch))
    } else if batch_size == 0 {
        Err(Error::Eval(EvalErr::ZeroBatchSize))
    } else {
        insert_chunks_s(tables, batch_size, name, 0)
    }
}

/// Splits the records into chunks of at most `batch_size` and emits one
/// multi-row insert statement per chunk. The column list comes from the
/// first record of each chunk; a field named `id` whose value is `Null`
/// is skipped.
#[verifier::loop_isolation(false)]
pub fn insert_batch(tables: &Vec<Value>, batch_size: u64, table_name: &str) -> (r: Result<
    Vec<(String, Vec<Value>, bool)>,
    Error,
>)
    ensures
        match r {
            Ok(out) => insert_batch_s(view_values(tables@), batch_size, table_name@) matches Ok(
                spec_out,
            ) && triples_match(spec_out, out@),
            Err(e) => insert_batch_s(view_values(tables@), batch_size, table_name@) == Err::<
                Seq<(Seq<char>, Seq<ValueS>, bool)>,
                Error,
            >(e),
        },
{
    let ghost tv = view_values(tables@);
    proof {
        lemma_view_values(tables@);
    }
    if tables.len() == 0 {
        return Err(Error::Policy(PolicyErr::EmptyBatch));
    }
    let total: u64 = tables.len() as u64;
    let ranges = match make_ranges(total, batch_size) {
        Err(e) => {
            return Err(e);
        },
        Ok(rs) => rs,
    };
    let t = insert_tree();
    let mut out: Vec<(String, Vec<Value>, bool)> = Vec::new();
    let mut i: usize = 0;
    while i < ranges.len()
        invariant
            i <= ranges@.len(),
            batch_size > 0,
            total == tables@.len(),
            tv == view_values(tables@),
            tv.len() == tables@.len(),
            view_template(t) == insert_tree_s(),
            ranges@.len() == range_count(total, batch_size),
            forall|q: int| 0 <= q < ranges@.len() ==> #[trigger] ranges@[q].0 as int == q * (
            batch_size as int),
            forall|q: int| 0 <= q < ranges@.len() ==> #[trigger] ranges@[q].1 as int == range_end(
                total,
                batch_size,
                q,
            ),
            match insert_chunks_s(tv, batch_size, table_name@, i as int) {
                Ok(rest) => insert_chunks_s(tv, batch_size, table_name@, 0) matches Ok(whole)
                    && whole == triples_of(out@) + rest,
                Err(e) => insert_chunks_s(tv, batch_size, table_name@, 0) == Err::<
                    Seq<(Seq<char>, Seq<ValueS>, bool)>,
                    Error,
                >(e),
            },
        decreases ranges@.len() - i,
    {
        let (lo, hi) = ranges[i];
        proof {
            crate::ranges::lemma_ranges_form(total, batch_size, ranges@);
        }
        let chunk = copy_chunk(tables, lo as usize, hi as usize);
        let mut env = Env::new();
        env.bind(String::from_str("table_name"), Value::Str(String::from_str(table_name)));
        env.bind(String::from_str("tables"), Value::Array(chunk));
        proof {
            assert(env_of(env) =~= insert_env_s(tv.subrange(lo as int, hi as int), table_name@));
        }
        match evaluate(&t, &env) {
            Err(e) => {
                return Err(Error::Eval(e));
            },
            Ok(p) => {
                let ghost pre = out@;
                out.push((p.0, p.1, false));
                proof {
                    lemma_triples_push(pre, out@[out@.len() - 1]);
                    match insert_chunks_s(tv, batch_size, table_name@, i as int + 1) {
                        Ok(rest2) => {
                            assert(triples_of(pre) + (seq![
                                (out@[out@.len() - 1].0@, view_values(out@[out@.len() - 1].1@),
                                out@[out@.len() - 1].2)
                            ] + rest2) =~= triples_of(out@) + rest2);
                        },
                        Err(_) => {},
                    }
                }
                i = i + 1;
            },
        }
    }
    proof {
        assert(triples_of(out@) + Seq::<(Seq<char>, Seq<ValueS>, bool)>::empty() =~= triples_of(
            out@,
        ));
    }
    Ok(out)
}

/// What `eval_sql` returns: the compiled template evaluated against the
/// caller's environment.
pub open spec fn eval_sql_s(src: Seq<char>, env: Seq<(Seq<char>, ValueS)>) -> Result<
    (Seq<char>, Seq<ValueS>),
    Error,
> {
    match crate::parse::compile_s(src) {
        Err(e) => Err(Error::Compile(e)),
        Ok(t) => match eval_template_s(t, env) {
            Err(e) => Err(Error::Eval(e)),
            Ok(p) => Ok(p),
        },
    }
}

/// Compiles a template source string and evaluates it against the given
/// environment, producing SQL text and ordered bind values.
pub fn eval_sql(src: &str, env: &Env) -> (r: Result<(String, Vec<Value>), Error>)
    ensures
        match r {
            Ok(p) => eval_sql_s(src@, env_of(*env)) == Ok::<(Seq<char>, Seq<ValueS>), Error>(
                (p.0@, view_values(p.1@)),
            ),
            Err(e) => eval_sql_s(src@, env_of(*env)) == Err::<(Seq<char>, Seq<ValueS>), Error>(e),
        },
{
    match crate::parse::compile(src) {
        Err(e) => Err(Error::Compile(e)),
        Ok(t) => match evaluate(&t, env) {
            Err(e) => Err(Error::Eval(e)),
            Ok(p) => Ok(p),
        },
    }
}

/// What `update_where` returns: an empty WHERE clause is rejected before
/// any SQL is generated, to prevent an accidental full-table update.
pub open spec fn update_where_s(
    params: Seq<(Seq<char>, ValueS)>,
    table: ValueS,
    name: Seq<char>,
    wher: Seq<InstrS>,
) -> Result<(Seq<char>, Seq<ValueS>, bool), Error> {
    if wher.len() == 0 {
        Err(Error::Policy(PolicyErr::EmptyWhere))
    } else {
        match eval_template_s(
            update_tree_s() + wher,
            params.push(("table_name"@, ValueS::Str(name))).push(("table"@, table)),
        ) {
            Ok(p) => Ok((p.0, p.1, false)),
            Err(e) => Err(Error::Eval(e)),
        }
    }
}

/// The partial-update set clause with a caller-supplied WHERE template;
/// an empty WHERE clause is a policy error.
pub fn update_where(table: &Value, table_name: &str, wher: Template, params: &Env) -> (r: Result<
    (String, Vec<Value>, bool),
    Error,
>)
    ensures
        match r {
            Ok(p) => update_where_s(
                env_of(*params),
                view_value(*table),
                table_name@,
                view_template(wher),
            ) == Ok::<(Seq<char>, Seq<ValueS>, bool), Error>((p.0@, view_values(p.1@), p.2)),
            Err(e) => update_where_s(
                env_of(*params),
                view_value(*table),
                table_name@,
                view_template(wher),
            ) == Err::<(Seq<char>, Seq<ValueS>, bool), Error>(e),
        },
{
    let ghost wherev = view_template(wher);
    proof {
        lemma_view_instrs(wher.instrs@);
    }
    if wher.instrs.len() == 0 {
        return Err(Error::Policy(PolicyErr::EmptyWhere));
    }
    let mut instrs: Vec<Instr> = Vec::new();
    proof {
        lemma_view_instrs(instrs@);
    }
    mk_update_base(&mut instrs);
    let mut wtail = wher.instrs;
    let ghost head_seq = instrs@;
    let ghost wtail_seq = wtail@;
    instrs.append(&mut wtail);
    proof {
        crate::ast::lemma_view_instrs_concat(head_seq, wtail_seq);
        assert(view_instrs(instrs@) =~= update_tree_s() + wherev);
    }
    let t = Template { instrs };
    let mut env = params.dup();
    env.bind(String::from_str("table_name"), Value::Str(String::from_str(table_name)));
    env.bind(String::from_str("table"), clone_value(table));
    match evaluate(&t, &env) {
        Ok(p) => Ok((p.0, p.1, false)),
        Err(e) => Err(Error::Eval(e)),
    }
}

/// What `delete_where` returns: an empty WHERE clause is rejected before
/// any SQL is generated, to prevent an accidental full-table delete.
pub open spec fn delete_where_s(
    params: Seq<(Seq<char>, ValueS)>,
    name: Seq<char>,
    wher: Seq<InstrS>,
) -> Result<(Seq<char>, Seq<ValueS>, bool), Error> {
    if wher.len() == 0 {
        Err(Error::Policy(PolicyErr::EmptyWhere))
    } else {
        match eval_template_s(
            delete_base_s() + wher,
            params.push(("table_name"@, ValueS::Str(name))),
        ) {
            Ok(p) => Ok((p.0, p.1, false)),
            Err(e) => Err(Error::Eval(e)),
        }
    }
}

/// A delete with a caller-supplied WHERE template; an empty WHERE clause
/// is a policy error.
pub fn delete_where(table_name: &str, wher: Template, params: &Env) -> (r: Result<
    (String, Vec<Value>, bool),
    Error,
>)
    ensures
        match r {
            Ok(p) => delete_where_s(env_of(*params), table_name@, view_template(wher)) == Ok::<
                (Seq<char>, Seq<ValueS>, bool),
                Error,
            >((p.0@, view_values(p.1@), p.2)),
            Err(e) => delete_where_s(env_of(*params), table_name@, view_template(wher)) == Err::<
                (Seq<char>, Seq<ValueS>, bool),
                Error,
            >(e),
        },
{
    let ghost wherev = view_template(wher);
    proof {
        lemma_view_instrs(wher.instrs@);
    }
    if wher.instrs.len() == 0 {
        return Err(Error::Policy(PolicyErr::EmptyWhere));
    }
    let mut instrs: Vec<Instr> = Vec::new();
    proof {
        lemma_view_instrs(instrs@);
    }
    mk_delete_base(&mut instrs);
    let mut wtail = wher.instrs;
    let ghost head_seq = instrs@;
    let ghost wtail_seq = wtail@;
    instrs.append(&mut wtail);
    proof {
        crate::ast::lemma_view_instrs_concat(head_seq, wtail_seq);
        assert(view_instrs(instrs@) =~= delete_base_s() + wherev);
    }
    let t = Template { instrs };
    let mut env = params.dup();
    env.bind(String::from_str("table_name"), Value::Str(String::from_str(table_name)));
    match evaluate(&t, &env) {
        Ok(p) => Ok((p.0, p.1, false)),
        Err(e) => Err(Error::Eval(e)),
    }
}

/// Inserts one record: a batch of one.
pub fn insert(table: &Value, table_name: &str) -> (r: Result<Vec<(String, Vec<Value>, bool)>, Error>)
    ensures
        match r {
            Ok(out) => insert_batch_s(seq![view_value(*table)], 1, table_name@) matches Ok(spec_out)
                && triples_match(spec_out, out@),
            Err(e) => insert_batch_s(seq![view_value(*table)], 1, table_name@) == Err::<
                Seq<(Seq<char>, Seq<ValueS>, bool)>,
                Error,
            >(e),
        },
{
    let mut one: Vec<Value> = Vec::new();
    one.push(clone_value(table));
    proof {
        lemma_view_values(one@);
        assert(view_values(one@) =~= seq![view_value(*table)]);
    }
    insert_batch(&one, 1, table_name)
}

} // verus!
