//! Rendering: walking a node tree against an environment, producing the
//! SQL text with neutral `?` placeholders and the ordered bound-argument
//! list.
//!
//! Sibling fragments are whitespace-trimmed and joined with single
//! spaces; text inside one literal is preserved as authored. `<where>`
//! strips leading `AND`/`OR` connectors, `<set>` trailing commas;
//! `<foreach>` joins its iterations with the separator inside the
//! open/close tokens; `<bind>` extends the environment for the sibling
//! nodes after it; `<include>` inlines the referenced fragment, failing
//! with `IncludeCycle` when resolution does not bottom out.
use vstd::prelude::*;

use crate::expr::Expr;
use crate::expr::ExpressionError;
use crate::expr::eval_model;
use crate::expr::has_text;
use crate::expr::truthy_val;
use crate::expr::val_text;
use crate::node::ForeachHead;
use crate::node::Node;
use crate::node::Part;
use crate::value::Env;
use crate::value::Val;
use crate::value::Value;

verus! {

broadcast use vstd::std_specs::vec::axiom_vec_index_decreases, vstd::std_specs::vec::axiom_vec_decreases_to_view, vstd::seq::axiom_seq_index_decreases;

/// Why rendering failed.
#[derive(Debug, Clone, Copy, PartialEq, Eq, Structural)]
pub enum RenderError {
    IncludeCycle,
    UnknownFragment,
    BadForeach,
    Expr(ExpressionError),
}

/// The models of a list of exec values.
pub open spec fn vals_view(s: Seq<Value>) -> Seq<Val> {
    Seq::new(s.len(), |i: int| s[i]@)
}

pub open spec fn is_ws(c: char) -> bool {
    c == ' ' || c == '\t' || c == '\n' || c == '\r'
}

/// Drops leading whitespace.
pub open spec fn trim_start(s: Seq<char>) -> Seq<char>
    decreases s.len(),
{
    if s.len() > 0 && is_ws(s[0]) {
        trim_start(s.drop_first())
    } else {
        s
    }
}

/// Drops trailing whitespace.
pub open spec fn trim_end(s: Seq<char>) -> Seq<char>
    decreases s.len(),
{
    if s.len() > 0 && is_ws(s.last()) {
        trim_end(s.drop_last())
    } else {
        s
    }
}

pub open spec fn trim_both(s: Seq<char>) -> Seq<char> {
    trim_end(trim_start(s))
}

/// Joins two already-trimmed fragments with one space; an empty side
/// contributes nothing.
pub open spec fn join2(a: Seq<char>, b: Seq<char>) -> Seq<char> {
    if a.len() == 0 {
        b
    } else if b.len() == 0 {
        a
    } else {
        a + seq![' '] + b
    }
}

/// ASCII upper-casing of one character.
pub open spec fn up_c(c: char) -> char {
    if 97 <= c as u32 <= 122 {
        (((c as u32) - 32) as u8) as char
    } else {
        c
    }
}

/// Case-insensitive (ASCII) prefix test.
pub open spec fn starts_ci(s: Seq<char>, tok: Seq<char>) -> bool {
    tok.len() <= s.len() && forall|i: int| 0 <= i < tok.len() ==> up_c(s[i]) == up_c(tok[i])
}

/// A leading keyword token: the keyword, ending the string or followed
/// by whitespace.
pub open spec fn starts_tok_ci(s: Seq<char>, tok: Seq<char>) -> bool {
    starts_ci(s, tok) && (s.len() == tok.len() || is_ws(s[tok.len() as int]))
}

pub proof fn lemma_trim_start_len(s: Seq<char>)
    ensures
        trim_start(s).len() <= s.len(),
    decreases s.len(),
{
    if s.len() > 0 && is_ws(s[0]) {
        lemma_trim_start_len(s.drop_first());
    }
}

pub proof fn lemma_trim_end_len(s: Seq<char>)
    ensures
        trim_end(s).len() <= s.len(),
    decreases s.len(),
{
    if s.len() > 0 && is_ws(s.last()) {
        lemma_trim_end_len(s.drop_last());
    }
}

/// Repeatedly strips leading whitespace and leading `AND`/`OR`
/// connector tokens.
pub open spec fn strip_lead_andor(s: Seq<char>) -> Seq<char>
    decreases s.len(),
    via strip_lead_andor_dec
{
    let t = trim_start(s);
    if starts_tok_ci(t, "AND"@) {
        strip_lead_andor(t.skip(3))
    } else if starts_tok_ci(t, "OR"@) {
        strip_lead_andor(t.skip(2))
    } else {
        t
    }
}

#[via_fn]
proof fn strip_lead_andor_dec(s: Seq<char>) {
    lemma_trim_start_len(s);
    reveal_strlit("AND");
    reveal_strlit("OR");
}

/// What `<where>` wraps around its children's rendering: nothing when
/// the stripped content is empty, otherwise ` WHERE ` plus the content.
pub open spec fn where_model(s: Seq<char>) -> Seq<char> {
    let t = trim_end(strip_lead_andor(s));
    if t.len() == 0 {
        Seq::empty()
    } else {
        " WHERE "@ + t
    }
}

/// Repeatedly strips trailing whitespace and trailing commas.
pub open spec fn strip_trail_commas(s: Seq<char>) -> Seq<char>
    decreases s.len(),
    via strip_trail_commas_dec
{
    let t = trim_end(s);
    if t.len() > 0 && t.last() == ',' {
        strip_trail_commas(t.drop_last())
    } else {
        t
    }
}

#[via_fn]
proof fn strip_trail_commas_dec(s: Seq<char>) {
    lemma_trim_end_len(s);
}

/// What `<set>` wraps around its children's rendering.
pub open spec fn set_model(s: Seq<char>) -> Seq<char> {
    let t = trim_start(strip_trail_commas(s));
    if t.len() == 0 {
        Seq::empty()
    } else {
        " SET "@ + t
    }
}

/// Strips the first override token that matches the front, once.
pub open spec fn strip_front_once(s: Seq<char>, toks: Seq<Seq<char>>) -> Seq<char>
    decreases toks.len(),
{
    if toks.len() == 0 {
        s
    } else if toks[0].len() > 0 && starts_ci(s, toks[0]) {
        s.skip(toks[0].len() as int)
    } else {
        strip_front_once(s, toks.drop_first())
    }
}

/// Case-insensitive (ASCII) suffix test.
pub open spec fn ends_ci(s: Seq<char>, tok: Seq<char>) -> bool {
    tok.len() <= s.len() && forall|i: int|
        0 <= i < tok.len() ==> up_c(s[s.len() - tok.len() + i]) == up_c(tok[i])
}

/// Strips the first override token that matches the back, once.
pub open spec fn strip_back_once(s: Seq<char>, toks: Seq<Seq<char>>) -> Seq<char>
    decreases toks.len(),
{
    if toks.len() == 0 {
        s
    } else if toks[0].len() > 0 && ends_ci(s, toks[0]) {
        s.take(s.len() - toks[0].len())
    } else {
        strip_back_once(s, toks.drop_first())
    }
}

/// What `<trim>` wraps around its children's rendering.
pub open spec fn trim_model(
    prefix: Seq<char>,
    suffix: Seq<char>,
    pov: Seq<Seq<char>>,
    sov: Seq<Seq<char>>,
    s: Seq<char>,
) -> Seq<char> {
    let t = strip_back_once(strip_front_once(trim_both(s), pov), sov);
    if t.len() == 0 {
        Seq::empty()
    } else {
        prefix + t + suffix
    }
}

/// The views of a list of strings.
pub open spec fn strs_view(s: Seq<String>) -> Seq<Seq<char>> {
    Seq::new(s.len(), |i: int| s[i]@)
}

/// Finds a fragment by name; the most recently loaded wins.
pub open spec fn frag_find(frags: Seq<(Seq<char>, Vec<Node>)>, refid: Seq<char>) -> Option<
    Vec<Node>,
>
    decreases frags.len(),
{
    if frags.len() == 0 {
        None
    } else if frags.last().0 == refid {
        Some(frags.last().1)
    } else {
        frag_find(frags.drop_last(), refid)
    }
}

/// The environment a foreach iteration renders under: the item bound
/// under the item name, and, when an index name is given, the position
/// bound under it.
pub open spec fn foreach_env(
    env: Seq<(Seq<char>, Val)>,
    h: ForeachHead,
    v: Val,
    i: int,
) -> Seq<(Seq<char>, Val)> {
    let e1 = env.push((h.item@, v));
    if h.index@.len() > 0 {
        e1.push((h.index@, Val::Int(i)))
    } else {
        e1
    }
}

/// Renders one text node: parts concatenated as authored, `#{}` parts
/// contributing one neutral `?` placeholder and one argument, `${}`
/// parts splicing their evaluated text.
pub open spec fn render_text(parts: Seq<Part>, env: Seq<(Seq<char>, Val)>) -> Result<
    (Seq<char>, Seq<Val>),
    RenderError,
>
    decreases parts.len(),
{
    if parts.len() == 0 {
        Ok((Seq::empty(), Seq::empty()))
    } else {
        match parts[0] {
            Part::Lit(s) => match render_text(parts.drop_first(), env) {
                Ok((s1, a1)) => Ok((s@ + s1, a1)),
                Err(e) => Err(e),
            },
            Part::Hash(e) => match eval_model(e, env) {
                Ok(v) => match render_text(parts.drop_first(), env) {
                    Ok((s1, a1)) => Ok((seq!['?'] + s1, seq![v] + a1)),
                    Err(er) => Err(er),
                },
                Err(er) => Err(RenderError::Expr(er)),
            },
            Part::Dollar(e) => match eval_model(e, env) {
                Ok(v) => if has_text(v) {
                    match render_text(parts.drop_first(), env) {
                        Ok((s1, a1)) => Ok((val_text(v) + s1, a1)),
                        Err(er) => Err(er),
                    }
                } else {
                    Err(RenderError::Expr(ExpressionError::TypeMismatch))
                },
                Err(er) => Err(RenderError::Expr(er)),
            },
        }
    }
}

/// Renders one node.
pub open spec fn render_node_model(
    n: Node,
    env: Seq<(Seq<char>, Val)>,
    frags: Seq<(Seq<char>, Vec<Node>)>,
    fuel: nat,
) -> Result<(Seq<char>, Seq<Val>), RenderError>
    decreases fuel, n, 0nat, 0nat,
    via render_node_model_dec
{
    match n {
        Node::Text(parts) => render_text(parts@, env),
        Node::If(test, children) => match eval_model(test, env) {
            Ok(v) => if truthy_val(v) {
                render_nodes_model(children@, env, frags, fuel)
            } else {
                Ok((Seq::empty(), Seq::empty()))
            },
            Err(er) => Err(RenderError::Expr(er)),
        },
        Node::Choose(branches) => render_choose_model(branches@, env, frags, fuel),
        Node::When(_, _) => Ok((Seq::empty(), Seq::empty())),
        Node::Otherwise(_) => Ok((Seq::empty(), Seq::empty())),
        Node::Where(children) => match render_nodes_model(children@, env, frags, fuel) {
            Ok((s, a)) => Ok((where_model(s), a)),
            Err(er) => Err(er),
        },
        Node::SetBlock(children) => match render_nodes_model(children@, env, frags, fuel) {
            Ok((s, a)) => Ok((set_model(s), a)),
            Err(er) => Err(er),
        },
        Node::Trim(h, children) => match render_nodes_model(children@, env, frags, fuel) {
            Ok((s, a)) => Ok(
                (
                    trim_model(
                        h.prefix@,
                        h.suffix@,
                        strs_view(h.prefix_overrides@),
                        strs_view(h.suffix_overrides@),
                        s,
                    ),
                    a,
                ),
            ),
            Err(er) => Err(er),
        },
        Node::Foreach(h, children) => match eval_model(h.collection, env) {
            Ok(Val::Arr(items)) => if items.len() == 0 {
                Ok((Seq::empty(), Seq::empty()))
            } else if items.len() > i64::MAX {
                Err(RenderError::BadForeach)
            } else {
                match render_items_model(children@, h, items, 0, env, frags, fuel) {
                    Ok((s, a)) => Ok((h.open@ + s + h.close@, a)),
                    Err(er) => Err(er),
                }
            },
            Ok(_) => Err(RenderError::BadForeach),
            Err(er) => Err(RenderError::Expr(er)),
        },
        Node::Bind(_, _) => Ok((Seq::empty(), Seq::empty())),
        Node::Include(inc) => match frag_find(frags, inc.refid@) {
            None => Err(RenderError::UnknownFragment),
            Some(ns) => if fuel == 0 {
                Err(RenderError::IncludeCycle)
            } else {
                render_nodes_model(ns@, env, frags, (fuel - 1) as nat)
            },
        },
    }
}

#[via_fn]
proof fn render_node_model_dec(
    n: Node,
    env: Seq<(Seq<char>, Val)>,
    frags: Seq<(Seq<char>, Vec<Node>)>,
    fuel: nat,
) {
    match n {
        Node::If(test, children) => {
            assert(decreases_to!(children => children@));
        },
        Node::Choose(branches) => {
            assert(decreases_to!(branches => branches@));
        },
        Node::Where(children) => {
            assert(decreases_to!(children => children@));
        },
        Node::SetBlock(children) => {
            assert(decreases_to!(children => children@));
        },
        Node::Trim(h, children) => {
            assert(decreases_to!(children => children@));
        },
        Node::Foreach(h, children) => {
            assert(decreases_to!(children => children@));
        },
        _ => {},
    }
}

/// Renders a sibling list: each child's fragment whitespace-trimmed,
/// non-empty fragments joined with single spaces, arguments
/// concatenated in order; `<bind>` extends the environment for the
/// siblings after it.
pub open spec fn render_nodes_model(
    ns: Seq<Node>,
    env: Seq<(Seq<char>, Val)>,
    frags: Seq<(Seq<char>, Vec<Node>)>,
    fuel: nat,
) -> Result<(Seq<char>, Seq<Val>), RenderError>
    decreases fuel, ns, 0nat, ns.len(),
    via render_nodes_model_dec
{
    if ns.len() == 0 {
        Ok((Seq::empty(), Seq::empty()))
    } else {
        match ns[0] {
            Node::Bind(name, e) => match eval_model(e, env) {
                Ok(v) => render_nodes_model(ns.drop_first(), env.push((name@, v)), frags, fuel),
                Err(er) => Err(RenderError::Expr(er)),
            },
            _ => match render_node_model(ns[0], env, frags, fuel) {
                Ok((s0, a0)) => match render_nodes_model(ns.drop_first(), env, frags, fuel) {
                    Ok((s1, a1)) => Ok((join2(trim_both(s0), s1), a0 + a1)),
                    Err(er) => Err(er),
                },
                Err(er) => Err(er),
            },
        }
    }
}

#[via_fn]
proof fn render_nodes_model_dec(
    ns: Seq<Node>,
    env: Seq<(Seq<char>, Val)>,
    frags: Seq<(Seq<char>, Vec<Node>)>,
    fuel: nat,
) {
    if ns.len() > 0 {
        assert(decreases_to!(ns => ns[0]));
        vstd::seq::axiom_seq_len_decreases(ns, ns.drop_first());
    }
}

/// Renders `<choose>` branches: the first `<when>` whose test is truthy,
/// else the first `<otherwise>` reached.
pub open spec fn render_choose_model(
    branches: Seq<Node>,
    env: Seq<(Seq<char>, Val)>,
    frags: Seq<(Seq<char>, Vec<Node>)>,
    fuel: nat,
) -> Result<(Seq<char>, Seq<Val>), RenderError>
    decreases fuel, branches, 0nat, branches.len(),
    via render_choose_model_dec
{
    if branches.len() == 0 {
        Ok((Seq::empty(), Seq::empty()))
    } else {
        match branches[0] {
            Node::When(test, children) => match eval_model(test, env) {
                Ok(v) => if truthy_val(v) {
                    render_nodes_model(children@, env, frags, fuel)
                } else {
                    render_choose_model(branches.drop_first(), env, frags, fuel)
                },
                Err(er) => Err(RenderError::Expr(er)),
            },
            Node::Otherwise(children) => render_nodes_model(children@, env, frags, fuel),
            _ => render_choose_model(branches.drop_first(), env, frags, fuel),
        }
    }
}

#[via_fn]
proof fn render_choose_model_dec(
    branches: Seq<Node>,
    env: Seq<(Seq<char>, Val)>,
    frags: Seq<(Seq<char>, Vec<Node>)>,
    fuel: nat,
) {
    if branches.len() > 0 {
        assert(decreases_to!(branches => branches[0]));
        match branches[0] {
            Node::When(test, children) => {
                assert(decreases_to!(branches[0] => children));
                assert(decreases_to!(children => children@));
            },
            Node::Otherwise(children) => {
                assert(decreases_to!(branches[0] => children));
                assert(decreases_to!(children => children@));
            },
            _ => {},
        }
        vstd::seq::axiom_seq_len_decreases(branches, branches.drop_first());
    }
}

/// Renders a foreach body once per remaining item, iterations joined
/// with the separator.
pub open spec fn render_items_model(
    children: Seq<Node>,
    h: ForeachHead,
    items: Seq<Val>,
    i: int,
    env: Seq<(Seq<char>, Val)>,
    frags: Seq<(Seq<char>, Vec<Node>)>,
    fuel: nat,
) -> Result<(Seq<char>, Seq<Val>), RenderError>
    decreases fuel, children, items.len() - i, 0nat,
    when 0 <= i < items.len()
{
    match render_nodes_model(children, foreach_env(env, h, items[i], i), frags, fuel) {
        Ok((s0, a0)) => if i + 1 >= items.len() {
            Ok((s0, a0))
        } else {
            match render_items_model(children, h, items, i + 1, env, frags, fuel) {
                Ok((s1, a1)) => Ok((s0 + h.separator@ + s1, a0 + a1)),
                Err(er) => Err(er),
            }
        },
        Err(er) => Err(er),
    }
}


/// How an executable rendering outcome matches the model's.
pub open spec fn matches_render(
    r: Result<(Vec<char>, Vec<Value>), RenderError>,
    m: Result<(Seq<char>, Seq<Val>), RenderError>,
) -> bool {
    match (r, m) {
        (Ok((s, a)), Ok((ms, ma))) => s@ == ms && vals_view(a@) == ma,
        (Err(e1), Err(e2)) => e1 == e2,
        _ => false,
    }
}

/// The model of a fragment table.
pub open spec fn frags_view(s: Seq<(String, Vec<Node>)>) -> Seq<(Seq<char>, Vec<Node>)> {
    Seq::new(s.len(), |i: int| (s[i].0@, s[i].1))
}

/// Whitespace, executable form.
pub fn is_ws_exec(c: char) -> (r: bool)
    ensures
        r == is_ws(c),
{
    c == ' ' || c == '\t' || c == '\n' || c == '\r'
}

/// ASCII upper-casing, executable form.
pub fn up_char(c: char) -> (r: char)
    ensures
        r == up_c(c),
{
    let u = c as u32;
    if 97 <= u && u <= 122 {
        ((u - 32) as u8) as char
    } else {
        c
    }
}

/// Appends all characters of `src`.
pub fn push_all(dst: &mut Vec<char>, src: &Vec<char>)
    ensures
        final(dst)@ == old(dst)@ + src@,
{
    let mut i: usize = 0;
    while i < src.len()
        invariant
            i <= src@.len(),
            dst@ == old(dst)@ + src@.take(i as int),
        decreases src@.len() - i,
    {
        proof {
            assert(old(dst)@ + src@.take(i as int + 1) =~= (old(dst)@ + src@.take(i as int)).push(
                src@[i as int],
            ));
        }
        dst.push(src[i]);
        i = i + 1;
    }
    proof {
        assert(src@.take(src@.len() as int) =~= src@);
    }
}

proof fn lemma_trim_start_idx(s: Seq<char>, lo: int)
    requires
        0 <= lo <= s.len(),
        forall|j: int| 0 <= j < lo ==> is_ws(s[j]),
        lo == s.len() || !is_ws(s[lo]),
    ensures
        trim_start(s) == s.skip(lo),
    decreases lo,
{
    if lo == 0 {
        assert(s.skip(0) =~= s);
    } else {
        assert(is_ws(s[0]));
        lemma_trim_start_idx(s.drop_first(), lo - 1);
        assert(s.drop_first().skip(lo - 1) =~= s.skip(lo));
    }
}

proof fn lemma_trim_end_idx(s: Seq<char>, hi: int)
    requires
        0 <= hi <= s.len(),
        forall|j: int| hi <= j < s.len() ==> is_ws(s[j]),
        hi == 0 || !is_ws(s[hi - 1]),
    ensures
        trim_end(s) == s.take(hi),
    decreases s.len(),
{
    if hi == s.len() {
        if s.len() == 0 || !is_ws(s.last()) {
            assert(s.take(hi) =~= s);
        } else {
            assert(false);
        }
    } else {
        assert(is_ws(s.last()));
        lemma_trim_end_idx(s.drop_last(), hi);
        assert(s.drop_last().take(hi) =~= s.take(hi));
    }
}

/// The index where leading whitespace ends.
#[verifier::loop_isolation(false)]
fn skip_ws_idx(cs: &Vec<char>, from: usize) -> (r: usize)
    requires
        from <= cs@.len(),
    ensures
        from <= r <= cs@.len(),
        trim_start(cs@.skip(from as int)) == cs@.skip(r as int),
{
    let mut i: usize = from;
    while i < cs.len() && is_ws_exec(cs[i])
        invariant
            from <= i <= cs@.len(),
            forall|j: int| from <= j < i ==> is_ws(cs@[j]),
        decreases cs@.len() - i,
    {
        i = i + 1;
    }
    proof {
        let u = cs@.skip(from as int);
        assert forall|j: int| 0 <= j < i - from implies is_ws(u[j]) by {
            assert(u[j] == cs@[from + j]);
        }
        if i < cs@.len() {
            assert(u[i - from] == cs@[i as int]);
        }
        lemma_trim_start_idx(u, i - from);
        assert(u.skip(i - from) =~= cs@.skip(i as int));
    }
    i
}

/// The index where trailing whitespace begins, scanning the range
/// `[from, to)` backwards.
#[verifier::loop_isolation(false)]
fn rskip_ws_idx(cs: &Vec<char>, from: usize, to: usize) -> (r: usize)
    requires
        from <= to <= cs@.len(),
    ensures
        from <= r <= to,
        trim_end(cs@.subrange(from as int, to as int)) == cs@.subrange(from as int, r as int),
{
    let mut i: usize = to;
    while i > from && is_ws_exec(cs[i - 1])
        invariant
            from <= i <= to,
            forall|j: int| i <= j < to ==> is_ws(cs@[j]),
        decreases i,
    {
        i = i - 1;
    }
    proof {
        let u = cs@.subrange(from as int, to as int);
        assert forall|j: int| i - from <= j < u.len() implies is_ws(u[j]) by {
            assert(u[j] == cs@[from + j]);
        }
        if i > from {
            assert(u[i - from - 1] == cs@[i as int - 1]);
        }
        lemma_trim_end_idx(u, i - from);
        assert(u.take(i - from) =~= cs@.subrange(from as int, i as int));
    }
    i
}

/// Copies the range `[from, to)` out of a character vector.
#[verifier::loop_isolation(false)]
pub fn copy_range(cs: &Vec<char>, from: usize, to: usize) -> (r: Vec<char>)
    requires
        from <= to <= cs@.len(),
    ensures
        r@ == cs@.subrange(from as int, to as int),
{
    let mut out: Vec<char> = Vec::new();
    let mut i: usize = from;
    while i < to
        invariant
            from <= i <= to,
            out@ == cs@.subrange(from as int, i as int),
        decreases to - i,
    {
        proof {
            assert(cs@.subrange(from as int, i as int + 1) =~= cs@.subrange(
                from as int,
                i as int,
            ).push(cs@[i as int]));
        }
        out.push(cs[i]);
        i = i + 1;
    }
    out
}

/// Trims whitespace from both ends.
pub fn trim_vec(cs: &Vec<char>) -> (r: Vec<char>)
    ensures
        r@ == trim_both(cs@),
{
    let lo = skip_ws_idx(cs, 0);
    let hi = rskip_ws_idx(cs, lo, cs.len());
    proof {
        assert(cs@.skip(0) =~= cs@);
        assert(cs@.subrange(lo as int, cs@.len() as int) =~= cs@.skip(lo as int));
    }
    copy_range(cs, lo, hi)
}

/// Case-insensitive prefix test at an offset.
#[verifier::loop_isolation(false)]
fn starts_ci_at(cs: &Vec<char>, from: usize, tok: &Vec<char>) -> (r: bool)
    requires
        from <= cs@.len(),
    ensures
        r == starts_ci(cs@.skip(from as int), tok@),
{
    if cs.len() - from < tok.len() {
        return false;
    }
    let mut i: usize = 0;
    while i < tok.len()
        invariant
            i <= tok@.len(),
            tok@.len() <= cs@.len() - from,
            forall|j: int| 0 <= j < i ==> up_c(cs@.skip(from as int)[j]) == up_c(tok@[j]),
        decreases tok@.len() - i,
    {
        proof {
            assert(cs@.skip(from as int)[i as int] == cs@[from + i]);
        }
        if up_char(cs[from + i]) != up_char(tok[i]) {
            return false;
        }
        i = i + 1;
    }
    true
}

/// A leading connector token at an offset: the token, then the end of
/// the text or whitespace.
fn starts_tok_at(cs: &Vec<char>, from: usize, tok: &Vec<char>) -> (r: bool)
    requires
        from <= cs@.len(),
    ensures
        r == starts_tok_ci(cs@.skip(from as int), tok@),
{
    if !starts_ci_at(cs, from, tok) {
        return false;
    }
    if cs.len() - from == tok.len() {
        return true;
    }
    proof {
        assert(cs@.skip(from as int)[tok@.len() as int] == cs@[from + tok@.len()]);
    }
    is_ws_exec(cs[from + tok.len()])
}

/// The index where leading whitespace and `AND`/`OR` connectors end.
#[verifier::loop_isolation(false)]
fn strip_lead_idx(cs: &Vec<char>, from: usize) -> (r: usize)
    requires
        from <= cs@.len(),
    ensures
        from <= r <= cs@.len(),
        cs@.skip(r as int) == strip_lead_andor(cs@.skip(from as int)),
    decreases cs@.len() - from,
{
    let n = cs.len();
    let i = skip_ws_idx(cs, from);
    let and_tok = crate::text::chars_of("AND");
    let or_tok = crate::text::chars_of("OR");
    if starts_tok_at(cs, i, &and_tok) {
        proof {
            reveal_strlit("AND");
            assert(("AND"@).len() == 3);
            assert(starts_ci(cs@.skip(i as int), "AND"@));
            assert(i + 3 <= cs@.len());
            assert(cs@.skip(i as int).skip(3) =~= cs@.skip(i as int + 3));
        }
        strip_lead_idx(cs, i + 3)
    } else if starts_tok_at(cs, i, &or_tok) {
        proof {
            reveal_strlit("OR");
            assert(("OR"@).len() == 2);
            assert(starts_ci(cs@.skip(i as int), "OR"@));
            assert(i + 2 <= cs@.len());
            assert(cs@.skip(i as int).skip(2) =~= cs@.skip(i as int + 2));
        }
        strip_lead_idx(cs, i + 2)
    } else {
        i
    }
}

/// Applies the `<where>` wrapping to rendered children text.
pub fn where_wrap(cs: &Vec<char>) -> (r: Vec<char>)
    ensures
        r@ == where_model(cs@),
{
    let i = strip_lead_idx(cs, 0);
    let j = rskip_ws_idx(cs, i, cs.len());
    proof {
        assert(cs@.skip(0) =~= cs@);
        assert(cs@.subrange(i as int, cs@.len() as int) =~= cs@.skip(i as int));
    }
    if i == j {
        proof {
            assert(cs@.subrange(i as int, j as int) =~= Seq::<char>::empty());
        }
        Vec::new()
    } else {
        let mut out = crate::text::chars_of(" WHERE ");
        let body = copy_range(cs, i, j);
        push_all(&mut out, &body);
        out
    }
}

/// Applies the `<set>` wrapping to rendered children text.
#[verifier::loop_isolation(false)]
fn set_wrap_rec(cs: &Vec<char>, to: usize) -> (r: Vec<char>)
    requires
        to <= cs@.len(),
    ensures
        r@ == set_model_inner(cs@.take(to as int)),
    decreases to,
{
    let j = rskip_ws_idx(cs, 0, to);
    proof {
        assert(cs@.subrange(0, to as int) =~= cs@.take(to as int));
        assert(cs@.subrange(0, j as int) =~= cs@.take(j as int));
    }
    if j > 0 && cs[j - 1] == ',' {
        proof {
            assert(cs@.take(j as int).drop_last() =~= cs@.take(j as int - 1));
        }
        set_wrap_rec(cs, j - 1)
    } else {
        let i = skip_ws_idx_to(cs, 0, j);
        if i == j {
            proof {
                assert(cs@.subrange(i as int, j as int) =~= Seq::<char>::empty());
            }
            Vec::new()
        } else {
            let mut out = crate::text::chars_of(" SET ");
            let body = copy_range(cs, i, j);
            proof {
                assert(cs@.take(j as int).skip(i as int) =~= cs@.subrange(i as int, j as int));
            }
            push_all(&mut out, &body);
            out
        }
    }
}

/// The `<set>` wrapping after trailing commas are gone.
pub open spec fn set_model_inner(s: Seq<char>) -> Seq<char>
    decreases s.len(),
    via set_model_inner_dec
{
    let t = trim_end(s);
    if t.len() > 0 && t.last() == ',' {
        set_model_inner(t.drop_last())
    } else {
        let u = trim_start(t);
        if u.len() == 0 {
            Seq::empty()
        } else {
            " SET "@ + u
        }
    }
}

#[via_fn]
proof fn set_model_inner_dec(s: Seq<char>) {
    lemma_trim_end_len(s);
}

/// The index where leading whitespace ends within `[from, to)`.
#[verifier::loop_isolation(false)]
fn skip_ws_idx_to(cs: &Vec<char>, from: usize, to: usize) -> (r: usize)
    requires
        from <= to <= cs@.len(),
    ensures
        from <= r <= to,
        trim_start(cs@.subrange(from as int, to as int)) == cs@.subrange(r as int, to as int),
{
    let mut i: usize = from;
    while i < to && is_ws_exec(cs[i])
        invariant
            from <= i <= to,
            forall|j: int| from <= j < i ==> is_ws(cs@[j]),
        decreases to - i,
    {
        i = i + 1;
    }
    proof {
        let u = cs@.subrange(from as int, to as int);
        assert forall|j: int| 0 <= j < i - from implies is_ws(u[j]) by {
            assert(u[j] == cs@[from + j]);
        }
        if i < to {
            assert(u[i - from] == cs@[i as int]);
        }
        lemma_trim_start_idx(u, i - from);
        assert(u.skip(i - from) =~= cs@.subrange(i as int, to as int));
    }
    i
}

/// Applies the `<set>` wrapping to rendered children text.
pub fn set_wrap(cs: &Vec<char>) -> (r: Vec<char>)
    ensures
        r@ == set_model(cs@),
{
    proof {
        assert(cs@.take(cs@.len() as int) =~= cs@);
        lemma_set_model_inner(cs@);
    }
    set_wrap_rec(cs, cs.len())
}

/// `set_model` and its index-friendly form agree.
proof fn lemma_set_model_inner(s: Seq<char>)
    ensures
        set_model_inner(s) == set_model(s),
    decreases s.len(),
{
    let t = trim_end(s);
    if t.len() > 0 && t.last() == ',' {
        lemma_trim_end_len(s);
        lemma_set_model_inner(t.drop_last());
    }
}



/// An empty rendering outcome.
fn empty_out() -> (r: (Vec<char>, Vec<Value>))
    ensures
        r.0@ == Seq::<char>::empty(),
        vals_view(r.1@) == Seq::<Val>::empty(),
{
    let r: (Vec<char>, Vec<Value>) = (Vec::new(), Vec::new());
    proof {
        assert(r.0@ =~= Seq::<char>::empty());
        assert(vals_view(r.1@) =~= Seq::<Val>::empty());
    }
    r
}

/// Case-insensitive suffix test.
#[verifier::loop_isolation(false)]
fn ends_ci_exec(t: &Vec<char>, tok: &Vec<char>) -> (r: bool)
    ensures
        r == ends_ci(t@, tok@),
{
    if tok.len() > t.len() {
        return false;
    }
    let base = t.len() - tok.len();
    let mut i: usize = 0;
    while i < tok.len()
        invariant
            i <= tok@.len(),
            tok@.len() <= t@.len(),
            base == t@.len() - tok@.len(),
            forall|j: int| 0 <= j < i ==> up_c(t@[t@.len() - tok@.len() + j]) == up_c(tok@[j]),
        decreases tok@.len() - i,
    {
        if up_char(t[base + i]) != up_char(tok[i]) {
            return false;
        }
        i = i + 1;
    }
    true
}

/// Strips the first matching front override, executable form.
#[verifier::loop_isolation(false)]
fn strip_front_exec(t: &Vec<char>, toks: &Vec<String>) -> (r: Vec<char>)
    ensures
        r@ == strip_front_once(t@, strs_view(toks@)),
{
    let mut k: usize = 0;
    proof {
        assert(strs_view(toks@).skip(0) =~= strs_view(toks@));
    }
    while k < toks.len()
        invariant
            k <= toks@.len(),
            strip_front_once(t@, strs_view(toks@)) == strip_front_once(
                t@,
                strs_view(toks@).skip(k as int),
            ),
        decreases toks@.len() - k,
    {
        proof {
            assert(strs_view(toks@).skip(k as int)[0] == toks@[k as int]@);
            assert(strs_view(toks@).skip(k as int).drop_first() =~= strs_view(toks@).skip(
                k as int + 1,
            ));
        }
        let tok = crate::text::chars_of(toks[k].as_str());
        proof {
            assert(t@.skip(0) =~= t@);
        }
        if tok.len() > 0 && starts_ci_at(t, 0, &tok) {
            return copy_range(t, tok.len(), t.len());
        }
        k = k + 1;
    }
    proof {
        assert(strs_view(toks@).skip(toks@.len() as int) =~= Seq::<Seq<char>>::empty());
    }
    copy_range(t, 0, t.len())
}

/// Strips the first matching back override, executable form.
#[verifier::loop_isolation(false)]
fn strip_back_exec(t: &Vec<char>, toks: &Vec<String>) -> (r: Vec<char>)
    ensures
        r@ == strip_back_once(t@, strs_view(toks@)),
{
    let mut k: usize = 0;
    proof {
        assert(strs_view(toks@).skip(0) =~= strs_view(toks@));
    }
    while k < toks.len()
        invariant
            k <= toks@.len(),
            strip_back_once(t@, strs_view(toks@)) == strip_back_once(
                t@,
                strs_view(toks@).skip(k as int),
            ),
        decreases toks@.len() - k,
    {
        proof {
            assert(strs_view(toks@).skip(k as int)[0] == toks@[k as int]@);
            assert(strs_view(toks@).skip(k as int).drop_first() =~= strs_view(toks@).skip(
                k as int + 1,
            ));
        }
        let tok = crate::text::chars_of(toks[k].as_str());
        if tok.len() > 0 && ends_ci_exec(t, &tok) {
            proof {
                assert(t@.take(t@.len() - tok@.len()) =~= t@.subrange(
                    0,
                    t@.len() - tok@.len(),
                ));
            }
            return copy_range(t, 0, t.len() - tok.len());
        }
        k = k + 1;
    }
    proof {
        assert(strs_view(toks@).skip(toks@.len() as int) =~= Seq::<Seq<char>>::empty());
    }
    copy_range(t, 0, t.len())
}

/// Applies the `<trim>` wrapping to rendered children text.
pub fn trim_wrap(h: &crate::node::TrimHead, cs: &Vec<char>) -> (r: Vec<char>)
    ensures
        r@ == trim_model(
            h.prefix@,
            h.suffix@,
            strs_view(h.prefix_overrides@),
            strs_view(h.suffix_overrides@),
            cs@,
        ),
{
    let t = trim_vec(cs);
    let t1 = strip_front_exec(&t, &h.prefix_overrides);
    let t2 = strip_back_exec(&t1, &h.suffix_overrides);
    if t2.len() == 0 {
        proof {
            assert(t2@ =~= Seq::<char>::empty());
        }
        Vec::new()
    } else {
        let mut out = crate::text::chars_of(h.prefix.as_str());
        push_all(&mut out, &t2);
        let sfx = crate::text::chars_of(h.suffix.as_str());
        push_all(&mut out, &sfx);
        out
    }
}

/// Finds a fragment by name, executable form; yields its position.
#[verifier::loop_isolation(false)]
fn frag_find_exec(frags: &Vec<(String, Vec<Node>)>, refid: &str) -> (r: Option<usize>)
    ensures
        match r {
            Some(i) => i < frags@.len() && frag_find(frags_view(frags@), refid@) == Some(
                frags@[i as int].1,
            ),
            None => frag_find(frags_view(frags@), refid@) is None,
        },
{
    let ghost m = frags_view(frags@);
    let mut i: usize = frags.len();
    proof {
        assert(m.take(frags@.len() as int) =~= m);
    }
    loop
        invariant
            i <= frags@.len(),
            frag_find(m.take(i as int), refid@) == frag_find(m, refid@),
        decreases i,
    {
        if i == 0 {
            proof {
                assert(m.take(0) =~= Seq::<(Seq<char>, Vec<Node>)>::empty());
            }
            return None;
        }
        i = i - 1;
        proof {
            assert(m.take(i as int + 1).drop_last() =~= m.take(i as int));
            assert(m.take(i as int + 1).last() == m[i as int]);
        }
        if crate::text::str_eq(frags[i].0.as_str(), refid) {
            return Some(i);
        }
    }
}

/// Renders one text node, executable form.
#[verifier::loop_isolation(false)]
fn rn_text(parts: &Vec<Part>, from: usize, env: &Env) -> (r: Result<
    (Vec<char>, Vec<Value>),
    RenderError,
>)
    requires
        from <= parts@.len(),
    ensures
        matches_render(r, render_text(parts@.skip(from as int), env@)),
    decreases parts@.len() - from,
{
    if from == parts.len() {
        proof {
            assert(parts@.skip(from as int) =~= Seq::<Part>::empty());
        }
        return Ok(empty_out());
    }
    proof {
        assert(parts@.skip(from as int)[0] == parts@[from as int]);
        assert(parts@.skip(from as int).drop_first() =~= parts@.skip(from as int + 1));
    }
    match &parts[from] {
        Part::Lit(s) => match rn_text(parts, from + 1, env) {
            Ok((s1, a1)) => {
                let mut out = crate::text::chars_of(s.as_str());
                push_all(&mut out, &s1);
                Ok((out, a1))
            },
            Err(e) => Err(e),
        },
        Part::Hash(e) => match crate::expr::eval(e, env) {
            Ok(v) => match rn_text(parts, from + 1, env) {
                Ok((s1, mut a1)) => {
                    let mut out: Vec<char> = Vec::new();
                    out.push('?');
                    push_all(&mut out, &s1);
                    let mut args: Vec<Value> = Vec::new();
                    let ghost gv = v@;
                    args.push(v);
                    let ghost ga1 = vals_view(a1@);
                    args.append(&mut a1);
                    proof {
                        assert(out@ =~= seq!['?'] + s1@);
                        assert(vals_view(args@) =~= seq![gv] + ga1);
                    }
                    Ok((out, args))
                },
                Err(er) => Err(er),
            },
            Err(er) => Err(RenderError::Expr(er)),
        },
        Part::Dollar(e) => match crate::expr::eval(e, env) {
            Ok(v) => match crate::expr::text_of(&v) {
                Some(txt) => match rn_text(parts, from + 1, env) {
                    Ok((s1, a1)) => {
                        let mut out = crate::text::chars_of(txt.as_str());
                        push_all(&mut out, &s1);
                        Ok((out, a1))
                    },
                    Err(er) => Err(er),
                },
                None => Err(RenderError::Expr(ExpressionError::TypeMismatch)),
            },
            Err(er) => Err(RenderError::Expr(er)),
        },
    }
}

/// Renders one node, executable form: the outcome is exactly what the
/// model assigns.
#[verifier::loop_isolation(false)]
pub fn rn_node(n: &Node, env: &Env, frags: &Vec<(String, Vec<Node>)>, fuel: usize) -> (r: Result<
    (Vec<char>, Vec<Value>),
    RenderError,
>)
    ensures
        matches_render(r, render_node_model(*n, env@, frags_view(frags@), fuel as nat)),
    decreases fuel, *n, 0int, 0int,
{
    match n {
        Node::Text(parts) => {
            proof {
                assert(parts@.skip(0) =~= parts@);
            }
            rn_text(parts, 0, env)
        },
        Node::If(test, children) => match crate::expr::eval(test, env) {
            Ok(v) => if v.truthy() {
                proof {
                    assert(decreases_to!(*n => *children));
                    assert(decreases_to!(*children => children@));
                    assert(children@.skip(0) =~= children@);
                }
                rn_nodes(children, 0, env, frags, fuel)
            } else {
                Ok(empty_out())
            },
            Err(er) => Err(RenderError::Expr(er)),
        },
        Node::Choose(branches) => {
            proof {
                assert(decreases_to!(*n => *branches));
                assert(branches@.skip(0) =~= branches@);
            }
            rn_choose(branches, 0, env, frags, fuel)
        },
        Node::When(_, _) => Ok(empty_out()),
        Node::Otherwise(_) => Ok(empty_out()),
        Node::Where(children) => {
            proof {
                assert(decreases_to!(*n => *children));
                assert(decreases_to!(*children => children@));
                assert(children@.skip(0) =~= children@);
            }
            match rn_nodes(children, 0, env, frags, fuel) {
                Ok((s, a)) => Ok((where_wrap(&s), a)),
                Err(er) => Err(er),
            }
        },
        Node::SetBlock(children) => {
            proof {
                assert(decreases_to!(*n => *children));
                assert(decreases_to!(*children => children@));
                assert(children@.skip(0) =~= children@);
            }
            match rn_nodes(children, 0, env, frags, fuel) {
                Ok((s, a)) => Ok((set_wrap(&s), a)),
                Err(er) => Err(er),
            }
        },
        Node::Trim(h, children) => {
            proof {
                assert(decreases_to!(*n => *children));
                assert(decreases_to!(*children => children@));
                assert(children@.skip(0) =~= children@);
            }
            match rn_nodes(children, 0, env, frags, fuel) {
                Ok((s, a)) => Ok((trim_wrap(h, &s), a)),
                Err(er) => Err(er),
            }
        },
        Node::Foreach(h, children) => match crate::expr::eval(&h.collection, env) {
            Ok(v) => match v {
                Value::Arr(items) => {
                    if items.len() == 0 {
                        proof {
                            assert(v@->Arr_0.len() == 0);
                        }
                        Ok(empty_out())
                    } else if items.len() as u64 > 0x7fff_ffff_ffff_ffffu64 {
                        Err(RenderError::BadForeach)
                    } else {
                        proof {
                            assert(decreases_to!(*n => *children));
                            assert(decreases_to!(*children => children@));
                            assert(vals_view(items@) =~= Value::Arr(items)@->Arr_0);
                        }
                        match rn_items(children, h, &items, 0, env, frags, fuel) {
                            Ok((s, a)) => {
                                let mut out = crate::text::chars_of(h.open.as_str());
                                push_all(&mut out, &s);
                                let close = crate::text::chars_of(h.close.as_str());
                                push_all(&mut out, &close);
                                Ok((out, a))
                            },
                            Err(er) => Err(er),
                        }
                    }
                },
                _ => Err(RenderError::BadForeach),
            },
            Err(er) => Err(RenderError::Expr(er)),
        },
        Node::Bind(_, _) => Ok(empty_out()),
        Node::Include(inc) => {
            match frag_find_exec(frags, inc.refid.as_str()) {
                None => Err(RenderError::UnknownFragment),
                Some(i) => {
                    if fuel == 0 {
                        Err(RenderError::IncludeCycle)
                    } else {
                        proof {
                            assert(frags@[i as int].1@.skip(0) =~= frags@[i as int].1@);
                        }
                        rn_nodes(&frags[i].1, 0, env, frags, fuel - 1)
                    }
                },
            }
        },
    }
}

/// Renders a sibling list from a position on, executable form.
#[verifier::loop_isolation(false)]
pub fn rn_nodes(
    ns: &Vec<Node>,
    from: usize,
    env: &Env,
    frags: &Vec<(String, Vec<Node>)>,
    fuel: usize,
) -> (r: Result<(Vec<char>, Vec<Value>), RenderError>)
    requires
        from <= ns@.len(),
    ensures
        matches_render(
            r,
            render_nodes_model(ns@.skip(from as int), env@, frags_view(frags@), fuel as nat),
        ),
    decreases fuel, *ns, 0int, ns@.len() - from,
{
    if from == ns.len() {
        proof {
            assert(ns@.skip(from as int) =~= Seq::<Node>::empty());
        }
        return Ok(empty_out());
    }
    proof {
        assert(ns@.skip(from as int)[0] == ns@[from as int]);
        assert(ns@.skip(from as int).drop_first() =~= ns@.skip(from as int + 1));
    }
    match &ns[from] {
        Node::Bind(name, e) => match crate::expr::eval(e, env) {
            Ok(v) => {
                let mut env2 = env.clone();
                env2.bind(name.clone(), v);
                rn_nodes(ns, from + 1, &env2, frags, fuel)
            },
            Err(er) => Err(RenderError::Expr(er)),
        },
        _ => {
            proof {
                assert(decreases_to!(*ns => ns@));
                assert(decreases_to!(ns@ => ns@[from as int]));
            }
            match rn_node(&ns[from], env, frags, fuel) {
                Ok((s0, a0)) => match rn_nodes(ns, from + 1, env, frags, fuel) {
                    Ok((s1, mut a1)) => {
                        let t0 = trim_vec(&s0);
                        let out: Vec<char> = if t0.len() == 0 {
                            s1
                        } else if s1.len() == 0 {
                            t0
                        } else {
                            let mut o = t0;
                            o.push(' ');
                            push_all(&mut o, &s1);
                            proof {
                                assert(o@ =~= trim_both(s0@) + seq![' '] + s1@);
                            }
                            o
                        };
                        let mut args = a0;
                        let ghost ga0 = vals_view(args@);
                        let ghost ga1 = vals_view(a1@);
                        args.append(&mut a1);
                        proof {
                            assert(vals_view(args@) =~= ga0 + ga1);
                        }
                        Ok((out, args))
                    },
                    Err(er) => Err(er),
                },
                Err(er) => Err(er),
            }
        },
    }
}

/// Renders `<choose>` branches from a position on, executable form.
#[verifier::loop_isolation(false)]
fn rn_choose(
    branches: &Vec<Node>,
    from: usize,
    env: &Env,
    frags: &Vec<(String, Vec<Node>)>,
    fuel: usize,
) -> (r: Result<(Vec<char>, Vec<Value>), RenderError>)
    requires
        from <= branches@.len(),
    ensures
        matches_render(
            r,
            render_choose_model(
                branches@.skip(from as int),
                env@,
                frags_view(frags@),
                fuel as nat,
            ),
        ),
    decreases fuel, *branches, 0int, branches@.len() - from,
{
    if from == branches.len() {
        proof {
            assert(branches@.skip(from as int) =~= Seq::<Node>::empty());
        }
        return Ok(empty_out());
    }
    proof {
        assert(branches@.skip(from as int)[0] == branches@[from as int]);
        assert(branches@.skip(from as int).drop_first() =~= branches@.skip(from as int + 1));
        assert(decreases_to!(*branches => branches@));
        assert(decreases_to!(branches@ => branches@[from as int]));
    }
    match &branches[from] {
        Node::When(test, children) => match crate::expr::eval(test, env) {
            Ok(v) => if v.truthy() {
                proof {
                    assert(decreases_to!(branches@[from as int] => *children));
                    assert(decreases_to!(*children => children@));
                    assert(children@.skip(0) =~= children@);
                }
                rn_nodes(children, 0, env, frags, fuel)
            } else {
                rn_choose(branches, from + 1, env, frags, fuel)
            },
            Err(er) => Err(RenderError::Expr(er)),
        },
        Node::Otherwise(children) => {
            proof {
                assert(decreases_to!(branches@[from as int] => *children));
                assert(decreases_to!(*children => children@));
                assert(children@.skip(0) =~= children@);
            }
            rn_nodes(children, 0, env, frags, fuel)
        },
        _ => rn_choose(branches, from + 1, env, frags, fuel),
    }
}

/// Renders the foreach body for the items from a position on,
/// executable form.
#[verifier::loop_isolation(false)]
fn rn_items(
    children: &Vec<Node>,
    h: &ForeachHead,
    items: &Vec<Value>,
    i: usize,
    env: &Env,
    frags: &Vec<(String, Vec<Node>)>,
    fuel: usize,
) -> (r: Result<(Vec<char>, Vec<Value>), RenderError>)
    requires
        i < items@.len(),
        items@.len() <= i64::MAX,
    ensures
        matches_render(
            r,
            render_items_model(
                children@,
                *h,
                vals_view(items@),
                i as int,
                env@,
                frags_view(frags@),
                fuel as nat,
            ),
        ),
    decreases fuel, *children, items@.len() - i, 0int,
{
    let nitems = items.len();
    let mut env2 = env.clone();
    env2.bind(h.item.clone(), items[i].clone());
    if h.index.as_str().unicode_len() > 0 {
        env2.bind(h.index.clone(), Value::Int(i as i64));
    }
    proof {
        assert(env2@ =~= foreach_env(env@, *h, vals_view(items@)[i as int], i as int));
        assert(decreases_to!(*children => children@));
        assert(children@.skip(0) =~= children@);
    }
    match rn_nodes(children, 0, &env2, frags, fuel) {
        Ok((s0, a0)) => {
            if i + 1 >= nitems {
                Ok((s0, a0))
            } else {
                match rn_items(children, h, items, i + 1, env, frags, fuel) {
                    Ok((s1, mut a1)) => {
                        let mut out = s0;
                        let sep = crate::text::chars_of(h.separator.as_str());
                        push_all(&mut out, &sep);
                        push_all(&mut out, &s1);
                        let mut args = a0;
                        let ghost ga0 = vals_view(args@);
                        let ghost ga1 = vals_view(a1@);
                        args.append(&mut a1);
                        proof {
                            assert(vals_view(args@) =~= ga0 + ga1);
                        }
                        Ok((out, args))
                    },
                    Err(er) => Err(er),
                }
            }
        },
        Err(er) => Err(er),
    }
}


} // verus!
