//! Rendering laws: properties of the render model that hold for every
//! environment and fragment table.
use vstd::prelude::*;

use crate::expr::eval_model;
use crate::node::ForeachHead;
use crate::node::Node;
use crate::render::RenderError;
use crate::render::ends_ci;
use crate::render::is_ws;
use crate::render::join2;
use crate::render::render_node_model;
use crate::render::render_nodes_model;
use crate::render::starts_ci;
use crate::render::starts_tok_ci;
use crate::render::strip_lead_andor;
use crate::render::trim_end;
use crate::render::trim_start;
use crate::render::where_model;
use crate::dialect::count_ph;
use crate::value::Val;
use crate::value::lookup_model;

verus! {

/// `<foreach>` over an empty sequence renders exactly the empty string,
/// with no arguments captured.
pub proof fn lemma_foreach_empty(
    h: ForeachHead,
    children: Vec<Node>,
    env: Seq<(Seq<char>, Val)>,
    frags: Seq<(Seq<char>, Vec<Node>)>,
    fuel: nat,
)
    requires
        eval_model(h.collection, env) == Ok::<Val, crate::expr::ExpressionError>(
            Val::Arr(Seq::empty()),
        ),
    ensures
        render_node_model(Node::Foreach(h, children), env, frags, fuel) == Ok::<
            (Seq<char>, Seq<Val>),
            RenderError,
        >((Seq::empty(), Seq::empty())),
{
}

/// The result of connector stripping neither needs more whitespace
/// stripped in front nor begins with an `AND`/`OR` connector token.
proof fn lemma_strip_fixpoint(s: Seq<char>)
    ensures
        !starts_tok_ci(strip_lead_andor(s), "AND"@),
        !starts_tok_ci(strip_lead_andor(s), "OR"@),
    decreases s.len(),
{
    reveal_strlit("AND");
    reveal_strlit("OR");
    let t = trim_start(s);
    crate::render::lemma_trim_start_len(s);
    if starts_tok_ci(t, "AND"@) {
        lemma_strip_fixpoint(t.skip(3));
    } else if starts_tok_ci(t, "OR"@) {
        lemma_strip_fixpoint(t.skip(2));
    }
}

/// Trimming the end keeps the string a prefix of itself.
proof fn lemma_trim_end_prefix(s: Seq<char>)
    ensures
        trim_end(s).len() <= s.len(),
        forall|i: int| 0 <= i < trim_end(s).len() ==> trim_end(s)[i] == s[i],
    decreases s.len(),
{
    if s.len() > 0 && is_ws(s.last()) {
        lemma_trim_end_prefix(s.drop_last());
        assert forall|i: int| 0 <= i < trim_end(s).len() implies trim_end(s)[i] == s[i] by {
            assert(trim_end(s) == trim_end(s.drop_last()));
            assert(trim_end(s.drop_last())[i] == s.drop_last()[i]);
            assert(s.drop_last()[i] == s[i]);
        }
    }
}

/// `<where>` renders empty when its children's rendering is empty;
/// otherwise its rendering begins with ` WHERE ` and never with
/// ` WHERE AND ` or ` WHERE OR `.
pub proof fn lemma_where_shape(s: Seq<char>)
    ensures
        s.len() == 0 ==> where_model(s).len() == 0,
        where_model(s).len() > 0 ==> (" WHERE "@).is_prefix_of(where_model(s)) && !(
        " WHERE AND "@).is_prefix_of(where_model(s)) && !(" WHERE OR "@).is_prefix_of(
            where_model(s),
        ),
{
    reveal_strlit("AND");
    reveal_strlit("OR");
    reveal_strlit(" WHERE ");
    reveal_strlit(" WHERE AND ");
    reveal_strlit(" WHERE OR ");
    let u = strip_lead_andor(s);
    let t = trim_end(u);
    if s.len() == 0 {
        assert(trim_start(s) == s);
        assert(u == s);
        assert(t.len() == 0);
    }
    if t.len() > 0 {
        let w = " WHERE "@ + t;
        assert(where_model(s) == w);
        assert((" WHERE "@).is_prefix_of(w)) by {
            assert((" WHERE "@) =~= w.subrange(0, 7));
        }
        lemma_strip_fixpoint(s);
        lemma_trim_end_prefix(u);
        if (" WHERE AND "@).is_prefix_of(w) {
            let p = " WHERE AND "@;
            assert(p.len() == 11);
            assert(p == w.subrange(0, 11));
            assert(w.len() >= 11);
            assert(t.len() >= 4);
            assert(p[7] == 'A' && p[8] == 'N' && p[9] == 'D' && p[10] == ' ');
            assert(w[7] == p[7] && w[8] == p[8] && w[9] == p[9] && w[10] == p[10]);
            assert(t[0] == w[7] && t[1] == w[8] && t[2] == w[9] && t[3] == w[10]);
            assert(u[0] == 'A' && u[1] == 'N' && u[2] == 'D' && u[3] == ' ');
            assert(starts_ci(u, "AND"@)) by {
                assert(crate::render::up_c(u[0]) == crate::render::up_c("AND"@[0]));
                assert(crate::render::up_c(u[1]) == crate::render::up_c("AND"@[1]));
                assert(crate::render::up_c(u[2]) == crate::render::up_c("AND"@[2]));
            }
            assert(starts_tok_ci(u, "AND"@));
            assert(false);
        }
        if (" WHERE OR "@).is_prefix_of(w) {
            let p = " WHERE OR "@;
            assert(p.len() == 10);
            assert(p == w.subrange(0, 10));
            assert(w.len() >= 10);
            assert(t.len() >= 3);
            assert(p[7] == 'O' && p[8] == 'R' && p[9] == ' ');
            assert(w[7] == p[7] && w[8] == p[8] && w[9] == p[9]);
            assert(t[0] == w[7] && t[1] == w[8] && t[2] == w[9]);
            assert(u[0] == 'O' && u[1] == 'R' && u[2] == ' ');
            assert(starts_ci(u, "OR"@)) by {
                assert(crate::render::up_c(u[0]) == crate::render::up_c("OR"@[0]));
                assert(crate::render::up_c(u[1]) == crate::render::up_c("OR"@[1]));
            }
            assert(starts_tok_ci(u, "OR"@));
            assert(false);
        }
    }
}

/// `<where>` over children whose rendering is empty contributes
/// nothing, and passes the children's captured arguments through.
pub proof fn lemma_where_empty_children(
    children: Vec<Node>,
    env: Seq<(Seq<char>, Val)>,
    frags: Seq<(Seq<char>, Vec<Node>)>,
    fuel: nat,
)
    requires
        render_nodes_model(children@, env, frags, fuel) matches Ok(p) && p.0.len() == 0,
    ensures
        render_node_model(Node::Where(children), env, frags, fuel) matches Ok(q) && q.0.len()
            == 0,
{
    let p = render_nodes_model(children@, env, frags, fuel)->Ok_0;
    lemma_where_shape(p.0);
}


broadcast use vstd::seq::axiom_seq_index_decreases;

/// Text free of the neutral placeholder character.
pub open spec fn clean(s: Seq<char>) -> bool {
    forall|i: int| 0 <= i < s.len() ==> s[i] != '?'
}

/// A value whose text, wherever it can reach the rendered SQL, is free
/// of the neutral placeholder character.
pub open spec fn val_clean(v: Val) -> bool
    decreases v,
    via val_clean_dec
{
    match v {
        Val::Str(s) => clean(s),
        Val::Dec(s) => clean(s),
        Val::Arr(items) => forall|i: int|
            0 <= i < items.len() ==> val_clean(#[trigger] items[i]),
        Val::Obj(entries) => forall|i: int|
            0 <= i < entries.len() ==> val_clean(#[trigger] entries[i].1),
        _ => true,
    }
}

#[via_fn]
proof fn val_clean_dec(v: Val) {
    match v {
        Val::Arr(items) => {
            assert forall|i: int| 0 <= i < items.len() implies decreases_to!(v => items[i]) by {
                assert(decreases_to!(items => items[i]));
            }
        },
        Val::Obj(entries) => {
            assert forall|i: int|
                0 <= i < entries.len() implies decreases_to!(v => entries[i].1) by {
                assert(decreases_to!(entries => entries[i]));
            }
        },
        _ => {},
    }
}

/// An environment of clean values.
pub open spec fn env_clean(env: Seq<(Seq<char>, Val)>) -> bool {
    forall|i: int| 0 <= i < env.len() ==> val_clean(#[trigger] env[i].1)
}

/// An expression whose string literals are clean.
pub open spec fn expr_clean(e: crate::expr::Expr) -> bool
    decreases e,
{
    match e {
        crate::expr::Expr::Lit(v) => val_clean(v@),
        crate::expr::Expr::Var(_, _) => true,
        crate::expr::Expr::Not(inner) => expr_clean(*inner),
        crate::expr::Expr::Neg(inner) => expr_clean(*inner),
        crate::expr::Expr::Paren(inner) => expr_clean(*inner),
        crate::expr::Expr::Bin(_, a, b) => expr_clean(*a) && expr_clean(*b),
    }
}

/// Placeholder counting distributes over concatenation.
pub proof fn lemma_count_concat(a: Seq<char>, b: Seq<char>)
    ensures
        count_ph(a + b) == count_ph(a) + count_ph(b),
    decreases a.len(),
{
    if a.len() == 0 {
        assert(a + b =~= b);
    } else {
        assert((a + b)[0] == a[0]);
        assert((a + b).drop_first() =~= a.drop_first() + b);
        lemma_count_concat(a.drop_first(), b);
    }
}

/// Clean text holds no placeholders.
pub proof fn lemma_clean_count(s: Seq<char>)
    requires
        clean(s),
    ensures
        count_ph(s) == 0,
    decreases s.len(),
{
    if s.len() > 0 {
        assert(clean(s.drop_first())) by {
            assert(forall|i: int|
                0 <= i < s.drop_first().len() ==> s.drop_first()[i] == s[i + 1]);
        }
        lemma_clean_count(s.drop_first());
    }
}

/// Concatenation keeps cleanliness.
pub proof fn lemma_clean_concat(a: Seq<char>, b: Seq<char>)
    requires
        clean(a),
        clean(b),
    ensures
        clean(a + b),
{
    assert forall|i: int| 0 <= i < (a + b).len() implies (a + b)[i] != '?' by {
        if i < a.len() {
            assert((a + b)[i] == a[i]);
        } else {
            assert((a + b)[i] == b[i - a.len()]);
        }
    }
}

/// Decimal digit text is clean.
proof fn lemma_dec_nat_clean(n: int)
    ensures
        clean(crate::text::dec_str_nat(n)),
    decreases n,
{
    if n < 10 {
        let d: int = if n < 0 { 0 } else { n };
        assert(crate::text::spec_digit(d) != '?');
    } else {
        lemma_dec_nat_clean(n / 10);
        assert(crate::text::spec_digit(n % 10) != '?');
        lemma_clean_concat(
            crate::text::dec_str_nat(n / 10),
            seq![crate::text::spec_digit(n % 10)],
        );
        assert(crate::text::dec_str_nat(n / 10).push(crate::text::spec_digit(n % 10))
            =~= crate::text::dec_str_nat(n / 10) + seq![crate::text::spec_digit(n % 10)]);
    }
}

/// The text of a clean scalar is clean.
pub proof fn lemma_val_text_clean(v: Val)
    requires
        val_clean(v),
    ensures
        clean(crate::expr::val_text(v)),
{
    reveal_strlit("true");
    reveal_strlit("false");
    match v {
        Val::Int(i) => {
            if i < 0 {
                lemma_dec_nat_clean(-i);
                lemma_clean_concat(seq!['-'], crate::text::dec_str_nat(-i));
            } else {
                lemma_dec_nat_clean(i);
            }
        },
        _ => {},
    }
}

/// A lookup in a list of clean values yields a clean value.
proof fn lemma_lookup_clean(entries: Seq<(Seq<char>, Val)>, name: Seq<char>)
    requires
        forall|i: int| 0 <= i < entries.len() ==> val_clean(#[trigger] entries[i].1),
    ensures
        lookup_model(entries, name) matches Some(w) ==> val_clean(w),
    decreases entries.len(),
{
    if entries.len() > 0 && entries.last().0 != name {
        assert(forall|i: int|
            0 <= i < entries.drop_last().len() ==> entries.drop_last()[i] == entries[i]);
        lemma_lookup_clean(entries.drop_last(), name);
    }
}

/// A path into a clean value reaches a clean value.
proof fn lemma_path_clean(v: Val, path: Seq<crate::expr::PathSeg>)
    requires
        val_clean(v),
    ensures
        val_clean(crate::expr::path_get(v, path)),
    decreases path.len(),
{
    if path.len() > 0 {
        let step = match (path[0], v) {
            (crate::expr::PathSeg::Name(n), Val::Obj(entries)) => match lookup_model(
                entries,
                n@,
            ) {
                Some(w) => w,
                None => Val::Null,
            },
            (crate::expr::PathSeg::Idx(i), Val::Arr(items)) => if i < items.len() {
                items[i as int]
            } else {
                Val::Null
            },
            _ => Val::Null,
        };
        assert(val_clean(step)) by {
            match (path[0], v) {
                (crate::expr::PathSeg::Name(n), Val::Obj(entries)) => {
                    lemma_lookup_clean(entries, n@);
                },
                _ => {},
            }
        }
        lemma_path_clean(step, path.drop_first());
    }
}

/// Evaluating a clean expression in a clean environment yields a clean
/// value.
pub proof fn lemma_eval_clean(e: crate::expr::Expr, env: Seq<(Seq<char>, Val)>)
    requires
        expr_clean(e),
        env_clean(env),
    ensures
        eval_model(e, env) matches Ok(v) ==> val_clean(v),
    decreases e,
{
    match e {
        crate::expr::Expr::Lit(_) => {},
        crate::expr::Expr::Var(name, path) => {
            lemma_lookup_clean(env, name@);
            match lookup_model(env, name@) {
                Some(v) => lemma_path_clean(v, path@),
                None => lemma_path_clean(Val::Null, path@),
            }
        },
        crate::expr::Expr::Not(inner) => lemma_eval_clean(*inner, env),
        crate::expr::Expr::Neg(inner) => lemma_eval_clean(*inner, env),
        crate::expr::Expr::Paren(inner) => lemma_eval_clean(*inner, env),
        crate::expr::Expr::Bin(op, a, b) => {
            lemma_eval_clean(*a, env);
            lemma_eval_clean(*b, env);
            if op != crate::expr::BinOp::And && op != crate::expr::BinOp::Or {
                if eval_model(*a, env) matches Ok(va) && eval_model(*b, env) matches Ok(vb) {
                    let va = eval_model(*a, env)->Ok_0;
                    let vb = eval_model(*b, env)->Ok_0;
                    if crate::expr::bin_model(op, va, vb) matches Ok(v) {
                        let v = crate::expr::bin_model(op, va, vb)->Ok_0;
                        if v matches Val::Str(_) {
                            lemma_val_text_clean(va);
                            lemma_val_text_clean(vb);
                            lemma_clean_concat(
                                crate::expr::val_text(va),
                                crate::expr::val_text(vb),
                            );
                        }
                    }
                }
            }
        },
    }
}


/// One text part free of stray placeholder characters.
pub open spec fn part_clean(p: crate::node::Part) -> bool {
    match p {
        crate::node::Part::Lit(s) => clean(s@),
        crate::node::Part::Hash(e) => expr_clean(e),
        crate::node::Part::Dollar(e) => expr_clean(e),
    }
}

pub open spec fn parts_clean(parts: Seq<crate::node::Part>) -> bool {
    forall|i: int| 0 <= i < parts.len() ==> part_clean(#[trigger] parts[i])
}

/// A tree whose literal text, expression literals and configured tokens
/// are all free of the neutral placeholder character: placeholders come
/// only from `#{}` parts.
pub open spec fn node_clean(n: Node) -> bool
    decreases n,
    via node_clean_dec
{
    match n {
        Node::Text(parts) => parts_clean(parts@),
        Node::If(test, ch) => expr_clean(test) && (forall|i: int|
            0 <= i < ch@.len() ==> node_clean(#[trigger] ch@[i])),
        Node::Choose(ch) => forall|i: int| 0 <= i < ch@.len() ==> node_clean(#[trigger] ch@[i]),
        Node::When(test, ch) => expr_clean(test) && (forall|i: int|
            0 <= i < ch@.len() ==> node_clean(#[trigger] ch@[i])),
        Node::Otherwise(ch) => forall|i: int|
            0 <= i < ch@.len() ==> node_clean(#[trigger] ch@[i]),
        Node::Where(ch) => forall|i: int| 0 <= i < ch@.len() ==> node_clean(#[trigger] ch@[i]),
        Node::SetBlock(ch) => forall|i: int|
            0 <= i < ch@.len() ==> node_clean(#[trigger] ch@[i]),
        Node::Trim(h, ch) => clean(h.prefix@) && clean(h.suffix@) && (forall|i: int|
            0 <= i < h.prefix_overrides@.len() ==> clean(#[trigger] h.prefix_overrides@[i]@))
            && (forall|i: int|
            0 <= i < h.suffix_overrides@.len() ==> clean(#[trigger] h.suffix_overrides@[i]@))
            && (forall|i: int| 0 <= i < ch@.len() ==> node_clean(#[trigger] ch@[i])),
        Node::Foreach(h, ch) => expr_clean(h.collection) && clean(h.open@) && clean(h.close@)
            && clean(h.separator@) && (forall|i: int|
            0 <= i < ch@.len() ==> node_clean(#[trigger] ch@[i])),
        Node::Bind(_, e) => expr_clean(e),
        Node::Include(_) => true,
    }
}

#[via_fn]
proof fn node_clean_dec(n: Node) {
    broadcast use vstd::std_specs::vec::axiom_vec_index_decreases, vstd::std_specs::vec::axiom_vec_decreases_to_view;

    match n {
        Node::If(test, ch) => {
            assert forall|i: int| 0 <= i < ch@.len() implies decreases_to!(n => ch@[i]) by {
                assert(decreases_to!(ch => ch@));
            }
        },
        Node::Choose(ch) => {
            assert forall|i: int| 0 <= i < ch@.len() implies decreases_to!(n => ch@[i]) by {
                assert(decreases_to!(ch => ch@));
            }
        },
        Node::When(test, ch) => {
            assert forall|i: int| 0 <= i < ch@.len() implies decreases_to!(n => ch@[i]) by {
                assert(decreases_to!(ch => ch@));
            }
        },
        Node::Otherwise(ch) => {
            assert forall|i: int| 0 <= i < ch@.len() implies decreases_to!(n => ch@[i]) by {
                assert(decreases_to!(ch => ch@));
            }
        },
        Node::Where(ch) => {
            assert forall|i: int| 0 <= i < ch@.len() implies decreases_to!(n => ch@[i]) by {
                assert(decreases_to!(ch => ch@));
            }
        },
        Node::SetBlock(ch) => {
            assert forall|i: int| 0 <= i < ch@.len() implies decreases_to!(n => ch@[i]) by {
                assert(decreases_to!(ch => ch@));
            }
        },
        Node::Trim(h, ch) => {
            assert forall|i: int| 0 <= i < ch@.len() implies decreases_to!(n => ch@[i]) by {
                assert(decreases_to!(ch => ch@));
            }
        },
        Node::Foreach(h, ch) => {
            assert forall|i: int| 0 <= i < ch@.len() implies decreases_to!(n => ch@[i]) by {
                assert(decreases_to!(ch => ch@));
            }
        },
        _ => {},
    }
}

pub open spec fn nodes_clean(ns: Seq<Node>) -> bool {
    forall|i: int| 0 <= i < ns.len() ==> node_clean(#[trigger] ns[i])
}

pub open spec fn frags_clean(frags: Seq<(Seq<char>, Vec<Node>)>) -> bool {
    forall|i: int| 0 <= i < frags.len() ==> nodes_clean(#[trigger] frags[i].1@)
}

/// Upper-casing sends only the placeholder character to itself.
proof fn lemma_up_c_q(c: char)
    ensures
        (crate::render::up_c(c) == '?') == (c == '?'),
{
}

/// A case-insensitive match against a clean token covers only clean
/// characters.
proof fn lemma_ci_take_clean(t: Seq<char>, tok: Seq<char>)
    requires
        starts_ci(t, tok),
        clean(tok),
    ensures
        clean(t.take(tok.len() as int)),
{
    assert forall|i: int| 0 <= i < tok.len() implies t.take(tok.len() as int)[i] != '?' by {
        assert(crate::render::up_c(t[i]) == crate::render::up_c(tok[i]));
        lemma_up_c_q(t[i]);
        lemma_up_c_q(tok[i]);
    }
}


/// A single character other than `?` counts no placeholder.
proof fn lemma_count_single(c: char)
    requires
        c != '?',
    ensures
        count_ph(seq![c]) == 0,
{
    assert(count_ph(Seq::<char>::empty()) == 0);
    assert(seq![c].drop_first() =~= Seq::<char>::empty());
    assert(seq![c][0] == c);
}

/// Whitespace trimming keeps the placeholder count.
proof fn lemma_count_trim_start(s: Seq<char>)
    ensures
        count_ph(trim_start(s)) == count_ph(s),
    decreases s.len(),
{
    if s.len() > 0 && is_ws(s[0]) {
        lemma_count_trim_start(s.drop_first());
    }
}

proof fn lemma_count_trim_end(s: Seq<char>)
    ensures
        count_ph(trim_end(s)) == count_ph(s),
    decreases s.len(),
{
    if s.len() > 0 && is_ws(s.last()) {
        lemma_count_trim_end(s.drop_last());
        assert(s =~= s.drop_last() + seq![s.last()]);
        lemma_count_concat(s.drop_last(), seq![s.last()]);
        lemma_count_single(s.last());
    }
}

/// Connector stripping keeps the placeholder count.
proof fn lemma_count_strip_lead(s: Seq<char>)
    ensures
        count_ph(strip_lead_andor(s)) == count_ph(s),
    decreases s.len(),
{
    reveal_strlit("AND");
    reveal_strlit("OR");
    let t = trim_start(s);
    lemma_count_trim_start(s);
    crate::render::lemma_trim_start_len(s);
    if starts_tok_ci(t, "AND"@) {
        lemma_count_strip_lead(t.skip(3));
        lemma_ci_take_clean(t, "AND"@);
        lemma_clean_count(t.take(3));
        assert(t =~= t.take(3) + t.skip(3));
        lemma_count_concat(t.take(3), t.skip(3));
    } else if starts_tok_ci(t, "OR"@) {
        lemma_count_strip_lead(t.skip(2));
        lemma_ci_take_clean(t, "OR"@);
        lemma_clean_count(t.take(2));
        assert(t =~= t.take(2) + t.skip(2));
        lemma_count_concat(t.take(2), t.skip(2));
    }
}

/// Comma stripping keeps the placeholder count.
proof fn lemma_count_strip_commas(s: Seq<char>)
    ensures
        count_ph(crate::render::strip_trail_commas(s)) == count_ph(s),
    decreases s.len(),
{
    let t = trim_end(s);
    lemma_count_trim_end(s);
    crate::render::lemma_trim_end_len(s);
    if t.len() > 0 && t.last() == ',' {
        lemma_count_strip_commas(t.drop_last());
        assert(t =~= t.drop_last() + seq![t.last()]);
        lemma_count_concat(t.drop_last(), seq![t.last()]);
        lemma_count_single(t.last());
    }
}

/// `<where>` keeps the placeholder count.
pub proof fn lemma_count_where(s: Seq<char>)
    ensures
        count_ph(where_model(s)) == count_ph(s),
{
    reveal_strlit(" WHERE ");
    let u = strip_lead_andor(s);
    let t = trim_end(u);
    lemma_count_strip_lead(s);
    lemma_count_trim_end(u);
    if t.len() > 0 {
        assert(clean(" WHERE "@));
        lemma_clean_count(" WHERE "@);
        lemma_count_concat(" WHERE "@, t);
    }
}

/// `<set>` keeps the placeholder count.
pub proof fn lemma_count_set(s: Seq<char>)
    ensures
        count_ph(crate::render::set_model(s)) == count_ph(s),
{
    reveal_strlit(" SET ");
    let u = crate::render::strip_trail_commas(s);
    let t = trim_start(u);
    lemma_count_strip_commas(s);
    lemma_count_trim_start(u);
    if t.len() > 0 {
        assert(clean(" SET "@));
        lemma_clean_count(" SET "@);
        lemma_count_concat(" SET "@, t);
    }
}

/// Override stripping against clean tokens keeps the placeholder count.
proof fn lemma_count_strip_front(s: Seq<char>, toks: Seq<Seq<char>>)
    requires
        forall|i: int| 0 <= i < toks.len() ==> clean(#[trigger] toks[i]),
    ensures
        count_ph(crate::render::strip_front_once(s, toks)) == count_ph(s),
    decreases toks.len(),
{
    if toks.len() > 0 {
        if toks[0].len() > 0 && starts_ci(s, toks[0]) {
            lemma_ci_take_clean(s, toks[0]);
            lemma_clean_count(s.take(toks[0].len() as int));
            assert(s =~= s.take(toks[0].len() as int) + s.skip(toks[0].len() as int));
            lemma_count_concat(s.take(toks[0].len() as int), s.skip(toks[0].len() as int));
        } else {
            assert(forall|i: int|
                0 <= i < toks.drop_first().len() ==> toks.drop_first()[i] == toks[i + 1]);
            lemma_count_strip_front(s, toks.drop_first());
        }
    }
}

proof fn lemma_count_strip_back(s: Seq<char>, toks: Seq<Seq<char>>)
    requires
        forall|i: int| 0 <= i < toks.len() ==> clean(#[trigger] toks[i]),
    ensures
        count_ph(crate::render::strip_back_once(s, toks)) == count_ph(s),
    decreases toks.len(),
{
    if toks.len() > 0 {
        if toks[0].len() > 0 && ends_ci(s, toks[0]) {
            let cut = s.len() - toks[0].len();
            assert(clean(s.skip(cut))) by {
                assert forall|i: int| 0 <= i < s.skip(cut).len() implies s.skip(cut)[i] != '?' by {
                    assert(s.skip(cut)[i] == s[cut + i]);
                    assert(crate::render::up_c(s[cut + i]) == crate::render::up_c(toks[0][i]));
                    lemma_up_c_q(s[cut + i]);
                    lemma_up_c_q(toks[0][i]);
                }
            }
            lemma_clean_count(s.skip(cut));
            assert(s =~= s.take(cut) + s.skip(cut));
            lemma_count_concat(s.take(cut), s.skip(cut));
        } else {
            assert(forall|i: int|
                0 <= i < toks.drop_first().len() ==> toks.drop_first()[i] == toks[i + 1]);
            lemma_count_strip_back(s, toks.drop_first());
        }
    }
}

/// `<trim>` with clean tokens keeps the placeholder count.
pub proof fn lemma_count_trim_model(
    prefix: Seq<char>,
    suffix: Seq<char>,
    pov: Seq<Seq<char>>,
    sov: Seq<Seq<char>>,
    s: Seq<char>,
)
    requires
        clean(prefix),
        clean(suffix),
        forall|i: int| 0 <= i < pov.len() ==> clean(#[trigger] pov[i]),
        forall|i: int| 0 <= i < sov.len() ==> clean(#[trigger] sov[i]),
    ensures
        count_ph(crate::render::trim_model(prefix, suffix, pov, sov, s)) == count_ph(s),
{
    let t0 = crate::render::trim_both(s);
    let t1 = crate::render::strip_front_once(t0, pov);
    let t2 = crate::render::strip_back_once(t1, sov);
    lemma_count_trim_start(s);
    lemma_count_trim_end(trim_start(s));
    lemma_count_strip_front(t0, pov);
    lemma_count_strip_back(t1, sov);
    if t2.len() > 0 {
        lemma_clean_count(prefix);
        lemma_clean_count(suffix);
        lemma_count_concat(prefix, t2);
        lemma_count_concat(prefix + t2, suffix);
    }
}

/// Trimming and joining sibling fragments keeps the total count.
proof fn lemma_count_join(a: Seq<char>, b: Seq<char>)
    ensures
        count_ph(join2(crate::render::trim_both(a), b)) == count_ph(a) + count_ph(b),
{
    let t = crate::render::trim_both(a);
    lemma_count_trim_start(a);
    lemma_count_trim_end(trim_start(a));
    if t.len() != 0 && b.len() != 0 {
        lemma_count_concat(t, seq![' ']);
        lemma_count_concat(t + seq![' '], b);
        lemma_count_single(' ');
    }
}


/// Text-node rendering satisfies the placeholder law: each `#{}` part
/// contributes one placeholder and one argument, nothing else
/// contributes either.
proof fn lemma_text_count(parts: Seq<crate::node::Part>, env: Seq<(Seq<char>, Val)>)
    requires
        parts_clean(parts),
        env_clean(env),
    ensures
        crate::render::render_text(parts, env) matches Ok(p) ==> count_ph(p.0) == p.1.len(),
    decreases parts.len(),
{
    if parts.len() > 0 {
        assert(parts_clean(parts.drop_first())) by {
            assert(forall|i: int|
                0 <= i < parts.drop_first().len() ==> parts.drop_first()[i] == parts[i + 1]);
        }
        lemma_text_count(parts.drop_first(), env);
        let rest = crate::render::render_text(parts.drop_first(), env);
        match parts[0] {
            crate::node::Part::Lit(t) => {
                if rest matches Ok(p1) {
                    let p1 = rest->Ok_0;
                    lemma_clean_count(t@);
                    lemma_count_concat(t@, p1.0);
                }
            },
            crate::node::Part::Hash(e) => {
                if eval_model(e, env) matches Ok(v) && rest matches Ok(p1) {
                    let p1 = rest->Ok_0;
                    lemma_count_concat(seq!['?'], p1.0);
                    assert(count_ph(seq!['?']) == 1) by {
                        assert(count_ph(Seq::<char>::empty()) == 0);
                        assert(seq!['?'].drop_first() =~= Seq::<char>::empty());
                        assert(seq!['?'][0] == '?');
                    }
                }
            },
            crate::node::Part::Dollar(e) => {
                if eval_model(e, env) matches Ok(v) && rest matches Ok(p1) {
                    let v = eval_model(e, env)->Ok_0;
                    let p1 = rest->Ok_0;
                    lemma_eval_clean(e, env);
                    lemma_val_text_clean(v);
                    lemma_clean_count(crate::expr::val_text(v));
                    lemma_count_concat(crate::expr::val_text(v), p1.0);
                }
            },
        }
    }
}

/// One node's rendering satisfies the placeholder law.
pub proof fn lemma_node_count(
    n: Node,
    env: Seq<(Seq<char>, Val)>,
    frags: Seq<(Seq<char>, Vec<Node>)>,
    fuel: nat,
)
    requires
        node_clean(n),
        env_clean(env),
        frags_clean(frags),
    ensures
        render_node_model(n, env, frags, fuel) matches Ok(p) ==> count_ph(p.0) == p.1.len(),
    decreases fuel, n, 0nat, 0nat,
{
    broadcast use vstd::std_specs::vec::axiom_vec_index_decreases, vstd::std_specs::vec::axiom_vec_decreases_to_view, vstd::seq::axiom_seq_index_decreases;

    match n {
        Node::Text(parts) => {
            lemma_text_count(parts@, env);
        },
        Node::If(test, ch) => {
            if eval_model(test, env) matches Ok(v) && crate::expr::truthy_val(
                eval_model(test, env)->Ok_0,
            ) {
                assert(decreases_to!(ch => ch@));
                lemma_nodes_count(ch@, env, frags, fuel);
            }
        },
        Node::Choose(br) => {
            assert(decreases_to!(br => br@));
            lemma_choose_count(br@, env, frags, fuel);
        },
        Node::When(_, _) => {},
        Node::Otherwise(_) => {},
        Node::Where(ch) => {
            assert(decreases_to!(ch => ch@));
            lemma_nodes_count(ch@, env, frags, fuel);
            if render_nodes_model(ch@, env, frags, fuel) matches Ok(p) {
                lemma_count_where(render_nodes_model(ch@, env, frags, fuel)->Ok_0.0);
            }
        },
        Node::SetBlock(ch) => {
            assert(decreases_to!(ch => ch@));
            lemma_nodes_count(ch@, env, frags, fuel);
            if render_nodes_model(ch@, env, frags, fuel) matches Ok(p) {
                lemma_count_set(render_nodes_model(ch@, env, frags, fuel)->Ok_0.0);
            }
        },
        Node::Trim(h, ch) => {
            assert(decreases_to!(ch => ch@));
            lemma_nodes_count(ch@, env, frags, fuel);
            if render_nodes_model(ch@, env, frags, fuel) matches Ok(p) {
                lemma_count_trim_model(
                    h.prefix@,
                    h.suffix@,
                    crate::render::strs_view(h.prefix_overrides@),
                    crate::render::strs_view(h.suffix_overrides@),
                    render_nodes_model(ch@, env, frags, fuel)->Ok_0.0,
                );
            }
        },
        Node::Foreach(h, ch) => {
            if eval_model(h.collection, env) matches Ok(cv) {
                let cv = eval_model(h.collection, env)->Ok_0;
                if cv matches Val::Arr(items) {
                    let items = cv->Arr_0;
                    if 0 < items.len() <= i64::MAX {
                        lemma_eval_clean(h.collection, env);
                        assert(decreases_to!(ch => ch@));
                        lemma_items_count(ch@, h, items, 0, env, frags, fuel);
                        if crate::render::render_items_model(ch@, h, items, 0, env, frags, fuel)
                            matches Ok(p) {
                            let p = crate::render::render_items_model(
                                ch@,
                                h,
                                items,
                                0,
                                env,
                                frags,
                                fuel,
                            )->Ok_0;
                            lemma_clean_count(h.open@);
                            lemma_clean_count(h.close@);
                            lemma_count_concat(h.open@, p.0);
                            lemma_count_concat(h.open@ + p.0, h.close@);
                        }
                    }
                }
            }
        },
        Node::Bind(_, _) => {},
        Node::Include(inc) => {
            match crate::render::frag_find(frags, inc.refid@) {
                Some(ns) => {
                    if fuel > 0 {
                        lemma_frag_find_clean(frags, inc.refid@);
                        lemma_nodes_count(ns@, env, frags, (fuel - 1) as nat);
                    }
                },
                None => {},
            }
        },
    }
}

/// A fragment found in a clean table is clean.
proof fn lemma_frag_find_clean(frags: Seq<(Seq<char>, Vec<Node>)>, refid: Seq<char>)
    requires
        frags_clean(frags),
    ensures
        crate::render::frag_find(frags, refid) matches Some(ns) ==> nodes_clean(ns@),
    decreases frags.len(),
{
    if frags.len() > 0 && frags.last().0 != refid {
        assert(forall|i: int|
            0 <= i < frags.drop_last().len() ==> frags.drop_last()[i] == frags[i]);
        lemma_frag_find_clean(frags.drop_last(), refid);
    }
}

/// A sibling list's rendering satisfies the placeholder law.
pub proof fn lemma_nodes_count(
    ns: Seq<Node>,
    env: Seq<(Seq<char>, Val)>,
    frags: Seq<(Seq<char>, Vec<Node>)>,
    fuel: nat,
)
    requires
        nodes_clean(ns),
        env_clean(env),
        frags_clean(frags),
    ensures
        render_nodes_model(ns, env, frags, fuel) matches Ok(p) ==> count_ph(p.0) == p.1.len(),
    decreases fuel, ns, 0nat, ns.len(),
{
    broadcast use vstd::seq::axiom_seq_index_decreases;

    if ns.len() > 0 {
        assert(nodes_clean(ns.drop_first())) by {
            assert(forall|i: int|
                0 <= i < ns.drop_first().len() ==> ns.drop_first()[i] == ns[i + 1]);
        }
        vstd::seq::axiom_seq_len_decreases(ns, ns.drop_first());
        match ns[0] {
            Node::Bind(name, e) => {
                if eval_model(e, env) matches Ok(v) {
                    let v = eval_model(e, env)->Ok_0;
                    lemma_eval_clean(e, env);
                    let env2 = env.push((name@, v));
                    assert(env_clean(env2)) by {
                        assert(forall|i: int| 0 <= i < env.len() ==> env2[i] == env[i]);
                        assert(env2.last().1 == v);
                    }
                    lemma_nodes_count(ns.drop_first(), env2, frags, fuel);
                }
            },
            _ => {
                lemma_node_count(ns[0], env, frags, fuel);
                lemma_nodes_count(ns.drop_first(), env, frags, fuel);
                if render_node_model(ns[0], env, frags, fuel) matches Ok(p0)
                    && render_nodes_model(ns.drop_first(), env, frags, fuel) matches Ok(p1) {
                    let p0 = render_node_model(ns[0], env, frags, fuel)->Ok_0;
                    let p1 = render_nodes_model(ns.drop_first(), env, frags, fuel)->Ok_0;
                    lemma_count_join(p0.0, p1.0);
                }
            },
        }
    }
}

/// A choose's rendering satisfies the placeholder law.
proof fn lemma_choose_count(
    branches: Seq<Node>,
    env: Seq<(Seq<char>, Val)>,
    frags: Seq<(Seq<char>, Vec<Node>)>,
    fuel: nat,
)
    requires
        nodes_clean(branches),
        env_clean(env),
        frags_clean(frags),
    ensures
        crate::render::render_choose_model(branches, env, frags, fuel) matches Ok(p) ==> count_ph(
            p.0,
        ) == p.1.len(),
    decreases fuel, branches, 0nat, branches.len(),
{
    broadcast use vstd::seq::axiom_seq_index_decreases;

    if branches.len() > 0 {
        assert(nodes_clean(branches.drop_first())) by {
            assert(forall|i: int|
                0 <= i < branches.drop_first().len() ==> branches.drop_first()[i] == branches[i
                    + 1]);
        }
        vstd::seq::axiom_seq_len_decreases(branches, branches.drop_first());
        match branches[0] {
            Node::When(test, ch) => {
                if eval_model(test, env) matches Ok(v) {
                    if crate::expr::truthy_val(eval_model(test, env)->Ok_0) {
                        assert(decreases_to!(branches[0] => ch));
                        assert(decreases_to!(ch => ch@));
                        lemma_nodes_count(ch@, env, frags, fuel);
                    } else {
                        lemma_choose_count(branches.drop_first(), env, frags, fuel);
                    }
                }
            },
            Node::Otherwise(ch) => {
                assert(decreases_to!(branches[0] => ch));
                assert(decreases_to!(ch => ch@));
                lemma_nodes_count(ch@, env, frags, fuel);
            },
            _ => {
                lemma_choose_count(branches.drop_first(), env, frags, fuel);
            },
        }
    }
}

/// A foreach body's iterations satisfy the placeholder law.
proof fn lemma_items_count(
    children: Seq<Node>,
    h: crate::node::ForeachHead,
    items: Seq<Val>,
    i: int,
    env: Seq<(Seq<char>, Val)>,
    frags: Seq<(Seq<char>, Vec<Node>)>,
    fuel: nat,
)
    requires
        0 <= i < items.len(),
        nodes_clean(children),
        env_clean(env),
        frags_clean(frags),
        forall|j: int| 0 <= j < items.len() ==> val_clean(#[trigger] items[j]),
        expr_clean(h.collection),
        clean(h.separator@),
    ensures
        crate::render::render_items_model(children, h, items, i, env, frags, fuel) matches Ok(p)
            ==> count_ph(p.0) == p.1.len(),
    decreases fuel, children, items.len() - i, 0nat,
{
    let env2 = crate::render::foreach_env(env, h, items[i], i);
    assert(env_clean(env2)) by {
        let e1 = env.push((h.item@, items[i]));
        assert(forall|k: int| 0 <= k < env.len() ==> e1[k] == env[k]);
        assert(e1.last().1 == items[i]);
        if h.index@.len() > 0 {
            assert(forall|k: int| 0 <= k < e1.len() ==> env2[k] == e1[k]);
            assert(env2.last().1 == Val::Int(i));
        }
    }
    lemma_nodes_count(children, env2, frags, fuel);
    if render_nodes_model(children, env2, frags, fuel) matches Ok(p0) {
        let p0 = render_nodes_model(children, env2, frags, fuel)->Ok_0;
        if i + 1 < items.len() {
            lemma_items_count(children, h, items, i + 1, env, frags, fuel);
            if crate::render::render_items_model(children, h, items, i + 1, env, frags, fuel)
                matches Ok(p1) {
                let p1 = crate::render::render_items_model(
                    children,
                    h,
                    items,
                    i + 1,
                    env,
                    frags,
                    fuel,
                )->Ok_0;
                lemma_clean_count(h.separator@);
                lemma_count_concat(p0.0, h.separator@);
                lemma_count_concat(p0.0 + h.separator@, p1.0);
            }
        }
    }
}

/// For every rendered statement: the number of neutral placeholders in
/// the SQL equals the number of captured arguments, given a tree,
/// fragment table and environment whose own text is free of the
/// placeholder character.
pub proof fn lemma_render_placeholders(
    ns: Seq<Node>,
    env: Seq<(Seq<char>, Val)>,
    frags: Seq<(Seq<char>, Vec<Node>)>,
    fuel: nat,
)
    requires
        nodes_clean(ns),
        env_clean(env),
        frags_clean(frags),
    ensures
        render_nodes_model(ns, env, frags, fuel) matches Ok(p) ==> count_ph(p.0) == p.1.len(),
{
    lemma_nodes_count(ns, env, frags, fuel);
}


/// `m` is `n` with every `<if>` subtree removed and everything else
/// kept: same text, same tags, same attributes, children related
/// pairwise after the removal.
pub open spec fn elide_node(n: Node, m: Node) -> bool
    decreases n, 0int,
    via elide_node_dec
{
    match (n, m) {
        (Node::Text(a), Node::Text(b)) => a@ == b@,
        (Node::Choose(a), Node::Choose(b)) => elide_nodes(a@, b@),
        (Node::When(ta, a), Node::When(tb, b)) => ta == tb && elide_nodes(a@, b@),
        (Node::Otherwise(a), Node::Otherwise(b)) => elide_nodes(a@, b@),
        (Node::Where(a), Node::Where(b)) => elide_nodes(a@, b@),
        (Node::SetBlock(a), Node::SetBlock(b)) => elide_nodes(a@, b@),
        (Node::Trim(ha, a), Node::Trim(hb, b)) => ha == hb && elide_nodes(a@, b@),
        (Node::Foreach(ha, a), Node::Foreach(hb, b)) => ha == hb && elide_nodes(a@, b@),
        (Node::Bind(na, ea), Node::Bind(nb, eb)) => na@ == nb@ && ea == eb,
        (Node::Include(a), Node::Include(b)) => a.refid@ == b.refid@,
        _ => false,
    }
}

#[via_fn]
proof fn elide_node_dec(n: Node, m: Node) {
    broadcast use vstd::std_specs::vec::axiom_vec_decreases_to_view;

    match n {
        Node::Choose(a) => {
            assert(decreases_to!(a => a@));
        },
        Node::When(ta, a) => {
            assert(decreases_to!(a => a@));
        },
        Node::Otherwise(a) => {
            assert(decreases_to!(a => a@));
        },
        Node::Where(a) => {
            assert(decreases_to!(a => a@));
        },
        Node::SetBlock(a) => {
            assert(decreases_to!(a => a@));
        },
        Node::Trim(ha, a) => {
            assert(decreases_to!(a => a@));
        },
        Node::Foreach(ha, a) => {
            assert(decreases_to!(a => a@));
        },
        _ => {},
    }
}

/// `ms` is `ns` with every `<if>` sibling dropped and the remaining
/// siblings elided pairwise.
pub open spec fn elide_nodes(ns: Seq<Node>, ms: Seq<Node>) -> bool
    decreases ns, ns.len() + 1,
    via elide_nodes_dec
{
    if ns.len() == 0 {
        ms.len() == 0
    } else if ns[0] matches Node::If(_, _) {
        elide_nodes(ns.drop_first(), ms)
    } else {
        ms.len() > 0 && elide_node(ns[0], ms[0]) && elide_nodes(ns.drop_first(), ms.drop_first())
    }
}

#[via_fn]
proof fn elide_nodes_dec(ns: Seq<Node>, ms: Seq<Node>) {
    broadcast use vstd::seq::axiom_seq_index_decreases;

    if ns.len() > 0 {
        assert(decreases_to!(ns => ns[0]));
        vstd::seq::axiom_seq_len_decreases(ns, ns.drop_first());
    }
}

/// The fragment tables paired name by name, bodies elided.
pub open spec fn elide_frags(
    frags: Seq<(Seq<char>, Vec<Node>)>,
    frags2: Seq<(Seq<char>, Vec<Node>)>,
) -> bool {
    frags2.len() == frags.len() && (forall|i: int|
        0 <= i < frags.len() ==> (#[trigger] frags2[i]).0 == frags[i].0 && elide_nodes(
            frags[i].1@,
            frags2[i].1@,
        ))
}

/// Every `<if>` test reachable while rendering evaluates to a falsy
/// value, under exactly the environments rendering would use.
pub open spec fn ifs_falsy_node(
    n: Node,
    env: Seq<(Seq<char>, Val)>,
    frags: Seq<(Seq<char>, Vec<Node>)>,
    fuel: nat,
) -> bool
    decreases fuel, n, 0int, 0int,
    via ifs_falsy_node_dec
{
    match n {
        Node::Text(_) => true,
        Node::If(test, _) => eval_model(test, env) matches Ok(v) && !crate::expr::truthy_val(v),
        Node::Choose(br) => ifs_falsy_choose(br@, env, frags, fuel),
        Node::When(_, ch) => ifs_falsy_nodes(ch@, env, frags, fuel),
        Node::Otherwise(ch) => ifs_falsy_nodes(ch@, env, frags, fuel),
        Node::Where(ch) => ifs_falsy_nodes(ch@, env, frags, fuel),
        Node::SetBlock(ch) => ifs_falsy_nodes(ch@, env, frags, fuel),
        Node::Trim(_, ch) => ifs_falsy_nodes(ch@, env, frags, fuel),
        Node::Foreach(h, ch) => match eval_model(h.collection, env) {
            Ok(Val::Arr(items)) => items.len() == 0 || items.len() > i64::MAX
                || ifs_falsy_items(ch@, h, items, 0, env, frags, fuel),
            _ => true,
        },
        Node::Bind(_, _) => true,
        Node::Include(inc) => match crate::render::frag_find(frags, inc.refid@) {
            Some(ns) => fuel == 0 || ifs_falsy_nodes(ns@, env, frags, (fuel - 1) as nat),
            None => true,
        },
    }
}

#[via_fn]
proof fn ifs_falsy_node_dec(
    n: Node,
    env: Seq<(Seq<char>, Val)>,
    frags: Seq<(Seq<char>, Vec<Node>)>,
    fuel: nat,
) {
    broadcast use vstd::std_specs::vec::axiom_vec_decreases_to_view;

    match n {
        Node::Choose(br) => {
            assert(decreases_to!(br => br@));
        },
        Node::When(t, ch) => {
            assert(decreases_to!(ch => ch@));
        },
        Node::Otherwise(ch) => {
            assert(decreases_to!(ch => ch@));
        },
        Node::Where(ch) => {
            assert(decreases_to!(ch => ch@));
        },
        Node::SetBlock(ch) => {
            assert(decreases_to!(ch => ch@));
        },
        Node::Trim(h, ch) => {
            assert(decreases_to!(ch => ch@));
        },
        Node::Foreach(h, ch) => {
            assert(decreases_to!(ch => ch@));
        },
        _ => {},
    }
}

pub open spec fn ifs_falsy_nodes(
    ns: Seq<Node>,
    env: Seq<(Seq<char>, Val)>,
    frags: Seq<(Seq<char>, Vec<Node>)>,
    fuel: nat,
) -> bool
    decreases fuel, ns, 0int, ns.len(),
    via ifs_falsy_nodes_dec
{
    if ns.len() == 0 {
        true
    } else {
        match ns[0] {
            Node::Bind(name, e) => match eval_model(e, env) {
                Ok(v) => ifs_falsy_nodes(ns.drop_first(), env.push((name@, v)), frags, fuel),
                Err(_) => true,
            },
            _ => ifs_falsy_node(ns[0], env, frags, fuel) && ifs_falsy_nodes(
                ns.drop_first(),
                env,
                frags,
                fuel,
            ),
        }
    }
}

#[via_fn]
proof fn ifs_falsy_nodes_dec(
    ns: Seq<Node>,
    env: Seq<(Seq<char>, Val)>,
    frags: Seq<(Seq<char>, Vec<Node>)>,
    fuel: nat,
) {
    broadcast use vstd::seq::axiom_seq_index_decreases;

    if ns.len() > 0 {
        assert(decreases_to!(ns => ns[0]));
        vstd::seq::axiom_seq_len_decreases(ns, ns.drop_first());
    }
}

pub open spec fn ifs_falsy_choose(
    branches: Seq<Node>,
    env: Seq<(Seq<char>, Val)>,
    frags: Seq<(Seq<char>, Vec<Node>)>,
    fuel: nat,
) -> bool
    decreases fuel, branches, 0int, branches.len(),
    via ifs_falsy_choose_dec
{
    if branches.len() == 0 {
        true
    } else {
        match branches[0] {
            Node::When(test, ch) => match eval_model(test, env) {
                Ok(v) => if crate::expr::truthy_val(v) {
                    ifs_falsy_nodes(ch@, env, frags, fuel)
                } else {
                    ifs_falsy_choose(branches.drop_first(), env, frags, fuel)
                },
                Err(_) => true,
            },
            Node::Otherwise(ch) => ifs_falsy_nodes(ch@, env, frags, fuel),
            _ => ifs_falsy_choose(branches.drop_first(), env, frags, fuel),
        }
    }
}

#[via_fn]
proof fn ifs_falsy_choose_dec(
    branches: Seq<Node>,
    env: Seq<(Seq<char>, Val)>,
    frags: Seq<(Seq<char>, Vec<Node>)>,
    fuel: nat,
) {
    broadcast use vstd::seq::axiom_seq_index_decreases, vstd::std_specs::vec::axiom_vec_decreases_to_view;

    if branches.len() > 0 {
        assert(decreases_to!(branches => branches[0]));
        match branches[0] {
            Node::When(t, ch) => {
                assert(decreases_to!(branches[0] => ch));
                assert(decreases_to!(ch => ch@));
            },
            Node::Otherwise(ch) => {
                assert(decreases_to!(branches[0] => ch));
                assert(decreases_to!(ch => ch@));
            },
            _ => {},
        }
        vstd::seq::axiom_seq_len_decreases(branches, branches.drop_first());
    }
}

pub open spec fn ifs_falsy_items(
    children: Seq<Node>,
    h: crate::node::ForeachHead,
    items: Seq<Val>,
    i: int,
    env: Seq<(Seq<char>, Val)>,
    frags: Seq<(Seq<char>, Vec<Node>)>,
    fuel: nat,
) -> bool
    decreases fuel, children, items.len() - i, 0int,
    when 0 <= i < items.len()
{
    ifs_falsy_nodes(children, crate::render::foreach_env(env, h, items[i], i), frags, fuel) && (i
        + 1 >= items.len() || ifs_falsy_items(children, h, items, i + 1, env, frags, fuel))
}


/// Fragment lookup respects the pairing of elided tables.
proof fn lemma_elide_frag_find(
    frags: Seq<(Seq<char>, Vec<Node>)>,
    frags2: Seq<(Seq<char>, Vec<Node>)>,
    refid: Seq<char>,
)
    requires
        elide_frags(frags, frags2),
    ensures
        match (crate::render::frag_find(frags, refid), crate::render::frag_find(frags2, refid)) {
            (Some(ns), Some(ms)) => elide_nodes(ns@, ms@),
            (None, None) => true,
            _ => false,
        },
    decreases frags.len(),
{
    if frags.len() > 0 {
        assert(frags2[frags.len() - 1].0 == frags[frags.len() - 1].0);
        if frags.last().0 != refid {
            assert(elide_frags(frags.drop_last(), frags2.drop_last())) by {
                assert(forall|i: int|
                    0 <= i < frags.drop_last().len() ==> frags.drop_last()[i] == frags[i]
                        && frags2.drop_last()[i] == frags2[i]);
            }
            lemma_elide_frag_find(frags.drop_last(), frags2.drop_last(), refid);
        }
    }
}

/// Rendering one node is unchanged by removing `<if>` subtrees whose
/// tests are falsy.
pub proof fn lemma_elide_render_node(
    n: Node,
    m: Node,
    env: Seq<(Seq<char>, Val)>,
    frags: Seq<(Seq<char>, Vec<Node>)>,
    frags2: Seq<(Seq<char>, Vec<Node>)>,
    fuel: nat,
)
    requires
        elide_node(n, m),
        ifs_falsy_node(n, env, frags, fuel),
        elide_frags(frags, frags2),
    ensures
        render_node_model(n, env, frags, fuel) == render_node_model(m, env, frags2, fuel),
    decreases fuel, n, 0int, 0int,
{
    broadcast use vstd::std_specs::vec::axiom_vec_decreases_to_view, vstd::seq::axiom_seq_index_decreases;

    match (n, m) {
        (Node::Text(a), Node::Text(b)) => {},
        (Node::Choose(a), Node::Choose(b)) => {
            assert(decreases_to!(a => a@));
            lemma_elide_render_choose(a@, b@, env, frags, frags2, fuel);
        },
        (Node::When(_, _), Node::When(_, _)) => {},
        (Node::Otherwise(_), Node::Otherwise(_)) => {},
        (Node::Where(a), Node::Where(b)) => {
            assert(decreases_to!(a => a@));
            lemma_elide_render_nodes(a@, b@, env, frags, frags2, fuel);
        },
        (Node::SetBlock(a), Node::SetBlock(b)) => {
            assert(decreases_to!(a => a@));
            lemma_elide_render_nodes(a@, b@, env, frags, frags2, fuel);
        },
        (Node::Trim(ha, a), Node::Trim(hb, b)) => {
            assert(decreases_to!(a => a@));
            lemma_elide_render_nodes(a@, b@, env, frags, frags2, fuel);
        },
        (Node::Foreach(ha, a), Node::Foreach(hb, b)) => {
            if eval_model(ha.collection, env) matches Ok(cv) {
                let cv = eval_model(ha.collection, env)->Ok_0;
                if cv matches Val::Arr(items) {
                    let items = cv->Arr_0;
                    if 0 < items.len() <= i64::MAX {
                        assert(decreases_to!(a => a@));
                        lemma_elide_render_items(a@, b@, ha, items, 0, env, frags, frags2, fuel);
                    }
                }
            }
        },
        (Node::Bind(_, _), Node::Bind(_, _)) => {},
        (Node::Include(a), Node::Include(b)) => {
            lemma_elide_frag_find(frags, frags2, a.refid@);
            if crate::render::frag_find(frags, a.refid@) matches Some(ns) && fuel > 0 {
                let ns = crate::render::frag_find(frags, a.refid@)->Some_0;
                let ms = crate::render::frag_find(frags2, a.refid@)->Some_0;
                lemma_elide_render_nodes(ns@, ms@, env, frags, frags2, (fuel - 1) as nat);
            }
        },
        _ => {},
    }
}

/// Rendering a sibling list is unchanged by removing `<if>` siblings
/// whose tests are falsy.
pub proof fn lemma_elide_render_nodes(
    ns: Seq<Node>,
    ms: Seq<Node>,
    env: Seq<(Seq<char>, Val)>,
    frags: Seq<(Seq<char>, Vec<Node>)>,
    frags2: Seq<(Seq<char>, Vec<Node>)>,
    fuel: nat,
)
    requires
        elide_nodes(ns, ms),
        ifs_falsy_nodes(ns, env, frags, fuel),
        elide_frags(frags, frags2),
    ensures
        render_nodes_model(ns, env, frags, fuel) == render_nodes_model(ms, env, frags2, fuel),
    decreases fuel, ns, 0int, ns.len(),
{
    broadcast use vstd::seq::axiom_seq_index_decreases;

    if ns.len() > 0 {
        assert(decreases_to!(ns => ns[0]));
        vstd::seq::axiom_seq_len_decreases(ns, ns.drop_first());
        match ns[0] {
            Node::If(test, _) => {
                assert(ifs_falsy_node(ns[0], env, frags, fuel));
                assert(eval_model(test, env) matches Ok(v) && !crate::expr::truthy_val(v));
                assert(render_node_model(ns[0], env, frags, fuel) == Ok::<
                    (Seq<char>, Seq<Val>),
                    crate::render::RenderError,
                >((Seq::<char>::empty(), Seq::<Val>::empty())));
                lemma_elide_render_nodes(ns.drop_first(), ms, env, frags, frags2, fuel);
                if render_nodes_model(ns.drop_first(), env, frags, fuel) matches Ok(p1) {
                    let p1 = render_nodes_model(ns.drop_first(), env, frags, fuel)->Ok_0;
                    assert(crate::render::trim_both(Seq::<char>::empty())
                        =~= Seq::<char>::empty());
                    assert(join2(Seq::<char>::empty(), p1.0) == p1.0);
                    assert(Seq::<Val>::empty() + p1.1 =~= p1.1);
                }
                assert(render_nodes_model(ns, env, frags, fuel) == render_nodes_model(
                    ms,
                    env,
                    frags2,
                    fuel,
                ));
            },
            Node::Bind(name, e) => {
                assert(elide_node(ns[0], ms[0]));
                assert(ms[0] matches Node::Bind(nb, eb) && nb@ == name@ && eb == e);
                if eval_model(e, env) matches Ok(v) {
                    let v = eval_model(e, env)->Ok_0;
                    lemma_elide_render_nodes(
                        ns.drop_first(),
                        ms.drop_first(),
                        env.push((name@, v)),
                        frags,
                        frags2,
                        fuel,
                    );
                }
            },
            _ => {
                assert(elide_node(ns[0], ms[0]));
                lemma_elide_render_node(ns[0], ms[0], env, frags, frags2, fuel);
                lemma_elide_render_nodes(
                    ns.drop_first(),
                    ms.drop_first(),
                    env,
                    frags,
                    frags2,
                    fuel,
                );
            },
        }
    }
}

/// Rendering `<choose>` branches is likewise unchanged.
proof fn lemma_elide_render_choose(
    branches: Seq<Node>,
    mbranches: Seq<Node>,
    env: Seq<(Seq<char>, Val)>,
    frags: Seq<(Seq<char>, Vec<Node>)>,
    frags2: Seq<(Seq<char>, Vec<Node>)>,
    fuel: nat,
)
    requires
        elide_nodes(branches, mbranches),
        ifs_falsy_choose(branches, env, frags, fuel),
        elide_frags(frags, frags2),
    ensures
        crate::render::render_choose_model(branches, env, frags, fuel)
            == crate::render::render_choose_model(mbranches, env, frags2, fuel),
    decreases fuel, branches, 1int, branches.len(),
{
    broadcast use vstd::seq::axiom_seq_index_decreases, vstd::std_specs::vec::axiom_vec_decreases_to_view;

    if branches.len() > 0 {
        assert(decreases_to!(branches => branches[0]));
        vstd::seq::axiom_seq_len_decreases(branches, branches.drop_first());
        match branches[0] {
            Node::If(_, _) => {
                lemma_elide_render_choose(
                    branches.drop_first(),
                    mbranches,
                    env,
                    frags,
                    frags2,
                    fuel,
                );
            },
            Node::When(test, ch) => {
                assert(elide_node(branches[0], mbranches[0]));
                assert(mbranches[0] matches Node::When(tb, b) && tb == test && elide_nodes(
                    ch@,
                    b@,
                ));
                if eval_model(test, env) matches Ok(v) {
                    if crate::expr::truthy_val(eval_model(test, env)->Ok_0) {
                        assert(decreases_to!(branches[0] => ch));
                        assert(decreases_to!(ch => ch@));
                        let mch = mbranches[0]->When_1;
                        lemma_elide_render_nodes(ch@, mch@, env, frags, frags2, fuel);
                    } else {
                        lemma_elide_render_choose(
                            branches.drop_first(),
                            mbranches.drop_first(),
                            env,
                            frags,
                            frags2,
                            fuel,
                        );
                    }
                }
            },
            Node::Otherwise(ch) => {
                assert(elide_node(branches[0], mbranches[0]));
                assert(mbranches[0] matches Node::Otherwise(b) && elide_nodes(ch@, b@));
                assert(decreases_to!(branches[0] => ch));
                assert(decreases_to!(ch => ch@));
                let mch = mbranches[0]->Otherwise_0;
                lemma_elide_render_nodes(ch@, mch@, env, frags, frags2, fuel);
            },
            _ => {
                assert(elide_node(branches[0], mbranches[0]));
                lemma_elide_render_choose(
                    branches.drop_first(),
                    mbranches.drop_first(),
                    env,
                    frags,
                    frags2,
                    fuel,
                );
            },
        }
    }
}

/// Rendering foreach iterations is likewise unchanged.
proof fn lemma_elide_render_items(
    children: Seq<Node>,
    mchildren: Seq<Node>,
    h: crate::node::ForeachHead,
    items: Seq<Val>,
    i: int,
    env: Seq<(Seq<char>, Val)>,
    frags: Seq<(Seq<char>, Vec<Node>)>,
    frags2: Seq<(Seq<char>, Vec<Node>)>,
    fuel: nat,
)
    requires
        0 <= i < items.len(),
        elide_nodes(children, mchildren),
        ifs_falsy_items(children, h, items, i, env, frags, fuel),
        elide_frags(frags, frags2),
    ensures
        crate::render::render_items_model(children, h, items, i, env, frags, fuel)
            == crate::render::render_items_model(mchildren, h, items, i, env, frags2, fuel),
    decreases fuel, children, items.len() - i, 0int,
{
    let env2 = crate::render::foreach_env(env, h, items[i], i);
    lemma_elide_render_nodes(children, mchildren, env2, frags, frags2, fuel);
    if i + 1 < items.len() {
        lemma_elide_render_items(
            children,
            mchildren,
            h,
            items,
            i + 1,
            env,
            frags,
            frags2,
            fuel,
        );
    }
}

/// For every statement body: rendering under an environment on which
/// every reachable `<if>` test is falsy gives the same output as
/// rendering the body with every `<if>` removed.
pub proof fn lemma_if_elision(
    ns: Seq<Node>,
    ms: Seq<Node>,
    env: Seq<(Seq<char>, Val)>,
    frags: Seq<(Seq<char>, Vec<Node>)>,
    frags2: Seq<(Seq<char>, Vec<Node>)>,
    fuel: nat,
)
    requires
        elide_nodes(ns, ms),
        ifs_falsy_nodes(ns, env, frags, fuel),
        elide_frags(frags, frags2),
    ensures
        render_nodes_model(ns, env, frags, fuel) == render_nodes_model(ms, env, frags2, fuel),
{
    lemma_elide_render_nodes(ns, ms, env, frags, frags2, fuel);
}


/// The `<where>` node's rendering is empty or begins with ` WHERE `,
/// and never with ` WHERE AND ` or ` WHERE OR `.
pub proof fn lemma_where_node_shape(
    children: Vec<Node>,
    env: Seq<(Seq<char>, Val)>,
    frags: Seq<(Seq<char>, Vec<Node>)>,
    fuel: nat,
)
    ensures
        render_node_model(Node::Where(children), env, frags, fuel) matches Ok(q) ==> q.0.len()
            == 0 || ((" WHERE "@).is_prefix_of(q.0) && !(" WHERE AND "@).is_prefix_of(q.0) && !(
        " WHERE OR "@).is_prefix_of(q.0)),
{
    if render_nodes_model(children@, env, frags, fuel) matches Ok(p) {
        let p = render_nodes_model(children@, env, frags, fuel)->Ok_0;
        lemma_where_shape(p.0);
    }
}

/// For every rendered statement of a registry whose trees, fragments
/// and environment are free of stray placeholder characters: the
/// number of neutral placeholders in the SQL equals the number of
/// captured arguments, in render order.
pub proof fn lemma_statement_placeholders(
    mappers: Seq<(String, crate::registry::Mapper)>,
    ns: Seq<char>,
    id: Seq<char>,
    env: Seq<(Seq<char>, Val)>,
)
    requires
        env_clean(env),
        match crate::registry::mapper_find(mappers, ns) {
            Some(m) => frags_clean(crate::render::frags_view(m.fragments@)) && match
                crate::registry::stmt_find(m.statements@, id) {
                Some(st) => nodes_clean(st.children@),
                None => true,
            },
            None => true,
        },
    ensures
        crate::rbatis::render_statement_model(mappers, ns, id, env) matches Ok(p) ==> count_ph(
            p.0,
        ) == p.1.len(),
{
    if crate::registry::mapper_find(mappers, ns) matches Some(m) {
        let m = crate::registry::mapper_find(mappers, ns)->Some_0;
        if crate::registry::stmt_find(m.statements@, id) matches Some(st) {
            let st = crate::registry::stmt_find(m.statements@, id)->Some_0;
            lemma_nodes_count(
                st.children@,
                env,
                crate::render::frags_view(m.fragments@),
                m.fragments@.len() as nat,
            );
        }
    }
}

} // verus!
