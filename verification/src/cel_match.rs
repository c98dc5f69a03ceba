//! CEL compile / eval for rule `match` expressions.
//!
//! The expression language is `cel_interpreter`'s; this module prepares the
//! evaluation context (dotted binding keys become nested maps) and hands the
//! program and context to the interpreter.

use std::collections::HashMap;
use std::sync::Arc;

use cel_interpreter::{Context, Program, Value};
use vstd::prelude::*;

use crate::assoc::{assoc_map, keys_distinct, lemma_assoc_contains, lemma_assoc_push, lemma_assoc_update};
use crate::cel_syntax::{cel_plain, is_plain_cel};

verus! {

#[verifier::external_type_specification]
#[verifier::external_body]
pub struct ExProgram(cel_interpreter::Program);

#[verifier::external_type_specification]
#[verifier::external_body]
pub struct ExContext<'a>(cel_interpreter::Context<'a>);

/// What `cel_interpreter::Program::compile` gives for a source text: `None`
/// when it compiles, else the compiler's message.
pub uninterp spec fn cel_compile_outcome(source: Seq<char>) -> Option<Seq<char>>;

/// What executing the program compiled from `source` gives in a context
/// holding exactly the variables `vars`: true only for a `true` boolean result.
/// It is named only for sources of the accepted language (`cel_plain`):
/// their comprehensions iterate lists only, so evaluating them never walks
/// a map, whose order would differ between processes.
pub uninterp spec fn cel_verdict(source: Seq<char>, vars: Map<Seq<char>, CelVar>) -> bool;

/// What a `cel_interpreter::Context` holds: its variables, as plain values.
pub uninterp spec fn cel_vars(ctx: Context) -> Map<Seq<char>, CelVar>;

/// A variable of an evaluation context, as plain values.
pub enum CelVar {
    /// A scalar.
    Scalar(CtxView),
    /// A map from field name to scalar.
    Fields(Map<Seq<char>, CtxView>),
    /// A map from set name to the list of its members.
    Lists(Map<Seq<char>, Seq<Seq<char>>>),
}

/// The map a list of pairs builds when each pair is inserted in turn (a
/// later pair replaces an earlier one with the same key).
pub open spec fn pairs_map<V>(s: Seq<(Seq<char>, V)>, n: int) -> Map<Seq<char>, V>
    decreases n,
{
    if n <= 0 {
        Map::empty()
    } else {
        pairs_map(s, n - 1).insert(s[n - 1].0, s[n - 1].1)
    }
}

/// A context value.
#[derive(Debug, Clone, PartialEq, Eq)]
pub enum CtxValue {
    /// String.
    Str(String),
    /// Integer.
    Int(i64),
    /// Bool.
    Bool(bool),
    /// Bytes.
    Bytes(Vec<u8>),
    /// String map, as (key, value) pairs; a later pair replaces an earlier
    /// one with the same key.
    StrMap(Vec<(String, String)>),
}

/// Abstract context value.
pub enum CtxView {
    /// String.
    Str(Seq<char>),
    /// Integer.
    Int(i64),
    /// Bool.
    Bool(bool),
    /// Bytes.
    Bytes(Seq<u8>),
    /// String map as (key, value) pairs.
    StrMap(Seq<(Seq<char>, Seq<char>)>),
}

impl View for CtxValue {
    type V = CtxView;

    open spec fn view(&self) -> CtxView {
        match self {
            CtxValue::Str(s) => CtxView::Str(s@),
            CtxValue::Int(i) => CtxView::Int(*i),
            CtxValue::Bool(b) => CtxView::Bool(*b),
            CtxValue::Bytes(b) => CtxView::Bytes(b@),
            CtxValue::StrMap(m) => CtxView::StrMap(m@.map_values(|p: (String, String)| text_pair(p))),
        }
    }
}

/// View of a pair of texts.
pub open spec fn text_pair(p: (String, String)) -> (Seq<char>, Seq<char>) {
    (p.0@, p.1@)
}

/// An equal copy of a list of text pairs.
pub fn copy_pairs(v: &Vec<(String, String)>) -> (r: Vec<(String, String)>)
    ensures
        r@.map_values(|p: (String, String)| text_pair(p)) == v@.map_values(|p: (String, String)| text_pair(p)),
{
    let mut r: Vec<(String, String)> = Vec::new();
    let mut i: usize = 0;
    while i < v.len()
        invariant
            i <= v@.len(),
            r@.map_values(|p: (String, String)| text_pair(p)) == v@.map_values(|p: (String, String)| text_pair(p)).take(
                i as int,
            ),
        decreases v@.len() - i,
    {
        let ghost r0 = r@.map_values(|p: (String, String)| text_pair(p));
        r.push((v[i].0.clone(), v[i].1.clone()));
        assert(r@.map_values(|p: (String, String)| text_pair(p)) =~= r0.push(text_pair(v@[i as int])));
        assert(v@.map_values(|p: (String, String)| text_pair(p)).take(i + 1) =~= v@.map_values(
            |p: (String, String)| text_pair(p),
        ).take(i as int).push(text_pair(v@[i as int])));
        i = i + 1;
    }
    assert(v@.map_values(|p: (String, String)| text_pair(p)).take(v@.len() as int) =~= v@.map_values(
        |p: (String, String)| text_pair(p),
    ));
    r
}

/// A byte-for-byte copy of a byte vector.
pub fn copy_bytes(v: &Vec<u8>) -> (r: Vec<u8>)
    ensures
        r@ == v@,
{
    let mut r: Vec<u8> = Vec::new();
    let mut i: usize = 0;
    while i < v.len()
        invariant
            i <= v@.len(),
            r@ == v@.subrange(0, i as int),
        decreases v@.len() - i,
    {
        r.push(v[i]);
        i = i + 1;
    }
    assert(r@ =~= v@);
    r
}

impl CtxValue {
    /// An equal copy.
    pub fn duplicate(&self) -> (r: CtxValue)
        ensures
            r@ == self@,
    {
        match self {
            CtxValue::Str(s) => CtxValue::Str(s.clone()),
            CtxValue::Int(i) => CtxValue::Int(*i),
            CtxValue::Bool(b) => CtxValue::Bool(*b),
            CtxValue::Bytes(b) => CtxValue::Bytes(copy_bytes(b)),
            CtxValue::StrMap(m) => CtxValue::StrMap(copy_pairs(m)),
        }
    }
}

/// Key of a binding entry.
pub open spec fn binding_key(e: (String, CtxValue)) -> Seq<char> {
    e.0@
}

/// Value of a binding entry.
pub open spec fn binding_value(e: (String, CtxValue)) -> CtxView {
    e.1@
}

/// View of a binding entry.
pub open spec fn binding_view(e: (String, CtxValue)) -> (Seq<char>, CtxView) {
    (e.0@, e.1@)
}

/// View of a named set.
pub open spec fn set_view(e: (String, Vec<String>)) -> (Seq<char>, Seq<Seq<char>>) {
    (e.0@, e.1@.map_values(|m: String| m@))
}

/// Index of the first of the first `n` entries carrying key `k`, or -1.
pub open spec fn key_pos(s: Seq<(Seq<char>, CtxView)>, k: Seq<char>, n: int) -> int
    decreases n,
{
    if n <= 0 {
        -1
    } else {
        let p = key_pos(s, k, n - 1);
        if p >= 0 {
            p
        } else if s[n - 1].0 == k {
            n - 1
        } else {
            -1
        }
    }
}

/// The bindings after binding `k` to `v`: the first entry carrying `k` is
/// replaced in place, else the pair is appended.
pub open spec fn bind(s: Seq<(Seq<char>, CtxView)>, k: Seq<char>, v: CtxView) -> Seq<(Seq<char>, CtxView)> {
    let p = key_pos(s, k, s.len() as int);
    if p >= 0 {
        s.update(p, (k, v))
    } else {
        s.push((k, v))
    }
}

/// `key_pos` is the index of the first entry carrying the key.
proof fn lemma_key_pos(s: Seq<(Seq<char>, CtxView)>, k: Seq<char>, j: int)
    requires
        0 <= j <= s.len(),
        forall|i: int| 0 <= i < j ==> s[i].0 != k,
        j == s.len() || s[j].0 == k,
    ensures
        key_pos(s, k, s.len() as int) == if j == s.len() { -1 } else { j },
{
    assert forall|n: int| 0 <= n <= s.len() implies key_pos(s, k, n) == if n <= j { -1 } else { j } by {
        lemma_key_pos_prefix(s, k, j, n);
    }
}

proof fn lemma_key_pos_prefix(s: Seq<(Seq<char>, CtxView)>, k: Seq<char>, j: int, n: int)
    requires
        0 <= j <= s.len(),
        0 <= n <= s.len(),
        forall|i: int| 0 <= i < j ==> s[i].0 != k,
        j == s.len() || s[j].0 == k,
    ensures
        key_pos(s, k, n) == if n <= j { -1 } else { j },
    decreases n,
{
    if n > 0 {
        lemma_key_pos_prefix(s, k, j, n - 1);
    }
}

/// Context bindings for a single evaluation.
#[derive(Debug, Clone)]
pub struct MatchContext {
    /// Dotted keys expanded into nested CEL maps (`request.method`, …); one entry per key.
    pub bindings: Vec<(String, CtxValue)>,
    /// Named sets: name → members.
    pub sets: Vec<(String, Vec<String>)>,
}

impl MatchContext {
    /// Binding keys are distinct.
    pub open spec fn wf(&self) -> bool {
        keys_distinct(self.bindings@, |e: (String, CtxValue)| binding_key(e))
    }

    /// The bindings as a map from key to value.
    pub open spec fn binding_map(&self) -> Map<Seq<char>, CtxView> {
        assoc_map(self.bindings@, |e: (String, CtxValue)| binding_key(e), |e: (String, CtxValue)| binding_value(e))
    }

    /// An empty context.
    pub fn new() -> (r: MatchContext)
        ensures
            r.wf(),
            r.binding_map() == Map::<Seq<char>, CtxView>::empty(),
            r.bindings@.len() == 0,
            r.sets@.len() == 0,
    {
        MatchContext { bindings: Vec::new(), sets: Vec::new() }
    }

    /// Bind `key` to `v`, replacing an earlier binding of `key`.
    pub fn set_value(&mut self, key: &str, v: CtxValue)
        requires
            old(self).wf(),
        ensures
            final(self).wf(),
            final(self).binding_map() == old(self).binding_map().insert(key@, v@),
            final(self).bindings@.map_values(|f: (String, CtxValue)| binding_view(f)) == bind(
                old(self).bindings@.map_values(|f: (String, CtxValue)| binding_view(f)),
                key@,
                v@,
            ),
            final(self).sets == old(self).sets,
    {
        let k = String::from_str(key);
        let mut i: usize = 0;
        let mut found = false;
        while i < self.bindings.len() && !found
            invariant
                i <= self.bindings@.len(),
                found ==> i < self.bindings@.len() && self.bindings@[i as int].0@ == k@,
                !found ==> forall|j: int| 0 <= j < i ==> self.bindings@[j].0@ != k@,
            decreases self.bindings@.len() - i + (if found { 0int } else { 1int }),
        {
            if self.bindings[i].0 == k {
                found = true;
            } else {
                i = i + 1;
            }
        }
        let ghost kf = |e: (String, CtxValue)| binding_key(e);
        let ghost vf = |e: (String, CtxValue)| binding_value(e);
        let ghost s0 = self.bindings@;
        let ghost bv0 = s0.map_values(|f: (String, CtxValue)| binding_view(f));
        proof {
            assert forall|j: int| 0 <= j < i implies bv0[j].0 != k@ by {}
            lemma_key_pos(bv0, k@, i as int);
        }
        if found {
            let _old = self.bindings.remove(i);
            self.bindings.insert(i, (k, v));
            proof {
                assert(self.bindings@ =~= s0.update(i as int, (k, v)));
                lemma_assoc_update(s0, kf, vf, i as int, (k, v));
                assert(self.bindings@.map_values(|f: (String, CtxValue)| binding_view(f)) =~= bv0.update(
                    i as int,
                    (k@, v@),
                ));
            }
        } else {
            self.bindings.push((k, v));
            proof {
                lemma_assoc_push(s0, kf, vf, (k, v));
                assert(self.bindings@ =~= s0.push((k, v)));
                assert(self.bindings@.map_values(|f: (String, CtxValue)| binding_view(f)) =~= bv0.push((k@, v@)));
            }
        }
    }

    /// Set a string binding.
    pub fn set_str(&mut self, key: &str, v: &str)
        requires
            old(self).wf(),
        ensures
            final(self).wf(),
            final(self).binding_map() == old(self).binding_map().insert(key@, CtxView::Str(v@)),
            final(self).bindings@.map_values(|f: (String, CtxValue)| binding_view(f)) == bind(
                old(self).bindings@.map_values(|f: (String, CtxValue)| binding_view(f)),
                key@,
                CtxView::Str(v@),
            ),
            final(self).sets == old(self).sets,
    {
        self.set_value(key, CtxValue::Str(String::from_str(v)));
    }

    /// Set an int binding.
    pub fn set_int(&mut self, key: &str, v: i64)
        requires
            old(self).wf(),
        ensures
            final(self).wf(),
            final(self).binding_map() == old(self).binding_map().insert(key@, CtxView::Int(v)),
            final(self).bindings@.map_values(|f: (String, CtxValue)| binding_view(f)) == bind(
                old(self).bindings@.map_values(|f: (String, CtxValue)| binding_view(f)),
                key@,
                CtxView::Int(v),
            ),
            final(self).sets == old(self).sets,
    {
        self.set_value(key, CtxValue::Int(v));
    }

    /// Set a bool binding.
    pub fn set_bool(&mut self, key: &str, v: bool)
        requires
            old(self).wf(),
        ensures
            final(self).wf(),
            final(self).binding_map() == old(self).binding_map().insert(key@, CtxView::Bool(v)),
            final(self).bindings@.map_values(|f: (String, CtxValue)| binding_view(f)) == bind(
                old(self).bindings@.map_values(|f: (String, CtxValue)| binding_view(f)),
                key@,
                CtxView::Bool(v),
            ),
            final(self).sets == old(self).sets,
    {
        self.set_value(key, CtxValue::Bool(v));
    }
}

impl Default for MatchContext {
    fn default() -> (r: MatchContext)
        ensures
            r.wf(),
            r.binding_map() == Map::<Seq<char>, CtxView>::empty(),
            r.bindings@.len() == 0,
            r.sets@.len() == 0,
    {
        MatchContext::new()
    }
}

/// Index of the first '.' in `k`, or -1.
pub open spec fn first_dot(k: Seq<char>) -> int
    decreases k.len(),
{
    if k.len() == 0 {
        -1
    } else if k[0] == '.' {
        0
    } else {
        let d = first_dot(k.subrange(1, k.len() as int));
        if d < 0 {
            -1
        } else {
            d + 1
        }
    }
}

/// Index of the first root entry named `name`, or -1.
pub open spec fn root_index(roots: Seq<(Seq<char>, Seq<(Seq<char>, CtxView)>)>, name: Seq<char>) -> int
    decreases roots.len(),
{
    if roots.len() == 0 {
        -1
    } else {
        let i = root_index(roots.drop_last(), name);
        if i >= 0 {
            i
        } else if roots.last().0 == name {
            roots.len() - 1
        } else {
            -1
        }
    }
}

/// Roots after adding field `rest` = `v` under `root`.
pub open spec fn with_field(
    roots: Seq<(Seq<char>, Seq<(Seq<char>, CtxView)>)>,
    root: Seq<char>,
    rest: Seq<char>,
    v: CtxView,
) -> Seq<(Seq<char>, Seq<(Seq<char>, CtxView)>)> {
    let i = root_index(roots, root);
    if i >= 0 {
        roots.update(i, (root, roots[i].1.push((rest, v))))
    } else {
        roots.push((root, seq![(rest, v)]))
    }
}

/// The context layout for a binding list: a key `root.rest` (split at its
/// first '.') becomes field `rest` of root map `root`, roots in order of first
/// appearance and fields in binding order; a key without '.' is top-level.
pub open spec fn grouped(b: Seq<(Seq<char>, CtxView)>) -> (
    Seq<(Seq<char>, Seq<(Seq<char>, CtxView)>)>,
    Seq<(Seq<char>, CtxView)>,
)
    decreases b.len(),
{
    if b.len() == 0 {
        (seq![], seq![])
    } else {
        let (r, t) = grouped(b.drop_last());
        let (k, v) = b.last();
        let d = first_dot(k);
        if d >= 0 {
            (with_field(r, k.subrange(0, d), k.subrange(d + 1, k.len() as int), v), t)
        } else {
            (r, t.push((k, v)))
        }
    }
}

/// Compiled CEL program.
#[derive(Debug)]
pub struct CompiledMatch {
    /// Source text.
    source: String,
    /// Compiled program.
    program: Arc<Program>,
}

impl CompiledMatch {
    /// The source is of the accepted language and compiled.
    #[verifier::type_invariant]
    spec fn compiled(&self) -> bool {
        cel_plain(self.source@) && cel_compile_outcome(self.source@) is None
    }

    /// The program was compiled from `source`, a text of the accepted language.
    pub closed spec fn wf(&self) -> bool {
        cel_plain(self.source@) && cel_compile_outcome(self.source@) is None
    }

    /// The source text the program was compiled from.
    pub closed spec fn text(&self) -> Seq<char> {
        self.source@
    }
}

impl Clone for CompiledMatch {
    fn clone(&self) -> (r: CompiledMatch)
        ensures
            r.text() == self.text(),
    {
        proof {
            use_type_invariant(self);
        }
        CompiledMatch { source: self.source.clone(), program: self.program.clone() }
    }
}

/// `cel_interpreter::Program::compile`, its error rendered as text. The
/// contract says the outcome is a function of the source. The parser's
/// visitor panics on a text with a syntax error (its error recovery leaves
/// nodes it cannot visit), so the source must be of the accepted language,
/// which has none.
#[verifier::external_body]
fn cel_compile(src: &str) -> (r: Result<Program, String>)
    requires
        cel_plain(src@),
    ensures
        match r {
            Ok(_) => cel_compile_outcome(src@) is None,
            Err(m) => cel_compile_outcome(src@) == Some(m@),
        },
{
    match Program::compile(src) {
        Ok(p) => Ok(p),
        Err(e) => Err(e.to_string()),
    }
}

/// No variables.
pub open spec fn no_vars() -> Map<Seq<char>, CelVar> {
    Map::empty()
}

/// An evaluation context that borrows nothing.
pub type CelContext = Context<'static>;

/// `Context::default`: a context with the built-in functions and no variables.
#[verifier::external_body]
fn ctx_new() -> (r: CelContext)
    ensures
        cel_vars(r) == no_vars(),
{
    Context::default()
}

/// `Context::add_variable_from_value` with a context value, converted variant
/// for variant (a string map becomes a CEL map, a later pair winning): the
/// variable `name` is (re)bound to it.
#[verifier::external_body]
fn ctx_add_scalar(ctx: &mut CelContext, name: &str, v: &CtxValue)
    ensures
        cel_vars(*final(ctx)) == cel_vars(*old(ctx)).insert(name@, CelVar::Scalar(v@)),
{
    ctx.add_variable_from_value(name, match v {
        CtxValue::Str(s) => Value::String(Arc::new(s.clone())),
        CtxValue::Int(i) => Value::Int(*i),
        CtxValue::Bool(b) => Value::Bool(*b),
        CtxValue::Bytes(b) => Value::Bytes(Arc::new(b.clone())),
        CtxValue::StrMap(m) => Value::from(m.iter().cloned().collect::<HashMap<String, String>>()),
    });
}

/// `Context::add_variable_from_value` with a map of values built from
/// `fields`, each converted as in `ctx_add_scalar` (a later field replaces an
/// earlier one with the same name).
#[verifier::external_body]
fn ctx_add_fields(ctx: &mut CelContext, name: &str, fields: &Vec<(String, CtxValue)>)
    ensures
        cel_vars(*final(ctx)) == cel_vars(*old(ctx)).insert(
            name@,
            CelVar::Fields(pairs_map(fields@.map_values(|f: (String, CtxValue)| binding_view(f)), fields@.len() as int)),
        ),
{
    let map: HashMap<String, Value> = fields.iter().map(|(k, v)| (k.clone(), match v {
        CtxValue::Str(s) => Value::String(Arc::new(s.clone())),
        CtxValue::Int(i) => Value::Int(*i),
        CtxValue::Bool(b) => Value::Bool(*b),
        CtxValue::Bytes(b) => Value::Bytes(Arc::new(b.clone())),
        CtxValue::StrMap(m) => Value::from(m.iter().cloned().collect::<HashMap<String, String>>()),
    })).collect();
    ctx.add_variable_from_value(name, Value::from(map));
}

/// `Context::add_variable_from_value` binding `sets` to a map from set
/// name to the list of its members (a later set replaces an earlier one).
#[verifier::external_body]
fn ctx_add_sets(ctx: &mut CelContext, sets: &Vec<(String, Vec<String>)>)
    ensures
        cel_vars(*final(ctx)) == cel_vars(*old(ctx)).insert(
            "sets"@,
            CelVar::Lists(pairs_map(sets@.map_values(|e: (String, Vec<String>)| set_view(e)), sets@.len() as int)),
        ),
{
    let m: HashMap<String, Value> = sets.iter().map(|(n, ms)| (n.clone(), Value::List(Arc::new(
        ms.iter().map(|x| Value::String(Arc::new(x.clone()))).collect(),
    )))).collect();
    ctx.add_variable_from_value("sets", Value::from(m));
}

/// `Program::execute` on a context: true only for a `true` boolean result.
/// Execution panics on a comprehension over a value that is neither a list
/// nor a map, on a message literal, on negating `i64::MIN` and on indexing a
/// string by `i64::MAX` (checked arithmetic); programs of the accepted
/// language iterate only lists, hold no message literal, negate only number
/// literals and index only by literals below `i64::MAX`.
#[verifier::external_body]
fn cel_run(prog: &CompiledMatch, ctx: &CelContext) -> (r: bool)
    requires
        prog.wf(),
    ensures
        r == cel_verdict(prog.text(), cel_vars(*ctx)),
{
    matches!(prog.program.execute(ctx), Ok(Value::Bool(true)))
}

/// Variables after binding each root to the map of its fields, in order.
pub open spec fn with_roots(
    m: Map<Seq<char>, CelVar>,
    roots: Seq<(Seq<char>, Seq<(Seq<char>, CtxView)>)>,
    n: int,
) -> Map<Seq<char>, CelVar>
    decreases n,
{
    if n <= 0 {
        m
    } else {
        with_roots(m, roots, n - 1).insert(roots[n - 1].0, CelVar::Fields(pairs_map(roots[n - 1].1, roots[n - 1].1.len() as int)))
    }
}

/// Variables after binding each top-level key to its value, in order.
pub open spec fn with_top(m: Map<Seq<char>, CelVar>, top: Seq<(Seq<char>, CtxView)>, n: int) -> Map<Seq<char>, CelVar>
    decreases n,
{
    if n <= 0 {
        m
    } else {
        with_top(m, top, n - 1).insert(top[n - 1].0, CelVar::Scalar(top[n - 1].1))
    }
}

/// The variables an evaluation context holds: each root map (keys
/// `root.field` grouped by root), then each top-level key, then `sets`.
pub open spec fn eval_vars(ctx: MatchContext) -> Map<Seq<char>, CelVar> {
    vars_of(
        ctx.bindings@.map_values(|f: (String, CtxValue)| binding_view(f)),
        ctx.sets@.map_values(|e: (String, Vec<String>)| set_view(e)),
    )
}

/// The variables that bindings `bv` and named sets `sv` give an evaluation context.
pub open spec fn vars_of(bv: Seq<(Seq<char>, CtxView)>, sv: Seq<(Seq<char>, Seq<Seq<char>>)>) -> Map<Seq<char>, CelVar> {
    let g = grouped(bv);
    with_top(with_roots(Map::empty(), g.0, g.0.len() as int), g.1, g.1.len() as int).insert(
        "sets"@,
        CelVar::Lists(pairs_map(sv, sv.len() as int)),
    )
}

/// `first_dot` is the index of the first '.'.
proof fn lemma_first_dot(k: Seq<char>, j: int)
    requires
        0 <= j <= k.len(),
        forall|i: int| 0 <= i < j ==> k[i] != '.',
        j == k.len() || k[j] == '.',
    ensures
        first_dot(k) == if j == k.len() { -1 } else { j },
    decreases k.len(),
{
    if k.len() > 0 && j > 0 {
        let t = k.subrange(1, k.len() as int);
        assert forall|i: int| 0 <= i < j - 1 implies t[i] != '.' by {
            assert(t[i] == k[i + 1]);
        }
        if j < k.len() {
            assert(t[j - 1] == k[j]);
        }
        lemma_first_dot(t, j - 1);
    }
}

/// `root_index` is the index of the first root with that name.
proof fn lemma_root_index(roots: Seq<(Seq<char>, Seq<(Seq<char>, CtxView)>)>, name: Seq<char>, j: int)
    requires
        0 <= j <= roots.len(),
        forall|i: int| 0 <= i < j ==> roots[i].0 != name,
        j == roots.len() || roots[j].0 == name,
    ensures
        root_index(roots, name) == if j == roots.len() { -1 } else { j },
    decreases roots.len(),
{
    if roots.len() > 0 {
        if j == roots.len() {
            lemma_root_index(roots.drop_last(), name, j - 1);
        } else if j < roots.len() - 1 {
            lemma_root_index(roots.drop_last(), name, j);
        } else {
            lemma_root_index(roots.drop_last(), name, j);
        }
    }
}

/// View of a root entry.
pub open spec fn root_view(e: (String, Vec<(String, CtxValue)>)) -> (Seq<char>, Seq<(Seq<char>, CtxView)>) {
    (e.0@, e.1@.map_values(|f: (String, CtxValue)| binding_view(f)))
}

/// Compile a CEL expression of the accepted language; any other text is
/// refused as unsupported.
pub fn compile_match(src: &str) -> (r: Result<CompiledMatch, String>)
    ensures
        match r {
            Ok(c) => c.text() == src@ && c.wf() && cel_plain(src@) && cel_compile_outcome(src@) is None,
            Err(m) => if cel_plain(src@) {
                cel_compile_outcome(src@) == Some(m@)
            } else {
                m@ == "unsupported expression: "@ + src@
            },
        },
{
    if !is_plain_cel(src) {
        return Err(String::from_str("unsupported expression: ").concat(src));
    }
    match cel_compile(src) {
        Ok(p) => Ok(CompiledMatch { source: String::from_str(src), program: Arc::new(p) }),
        Err(m) => Err(m),
    }
}

/// Index of the first '.' in `k`, if any.
fn find_dot(k: &String) -> (r: Option<usize>)
    ensures
        match r {
            Some(d) => first_dot(k@) == d as int && d < k@.len(),
            None => first_dot(k@) == -1,
        },
{
    let n = k.as_str().unicode_len();
    let mut j: usize = 0;
    while j < n
        invariant
            n == k@.len(),
            j <= n,
            forall|i: int| 0 <= i < j ==> k@[i] != '.',
        decreases n - j,
    {
        if k.as_str().get_char(j) == '.' {
            proof {
                lemma_first_dot(k@, j as int);
            }
            return Some(j);
        }
        j = j + 1;
    }
    proof {
        lemma_first_dot(k@, j as int);
    }
    None
}

/// Evaluate a compiled match against a context. Returns false on eval error
/// and on any non-boolean result.
pub fn eval_match(prog: &CompiledMatch, ctx: &MatchContext) -> (r: bool)
    ensures
        r == cel_verdict(prog.text(), eval_vars(*ctx)),
{
    let ghost bv = ctx.bindings@.map_values(|f: (String, CtxValue)| binding_view(f));
    let mut roots: Vec<(String, Vec<(String, CtxValue)>)> = Vec::new();
    let mut top: Vec<(String, CtxValue)> = Vec::new();
    let mut i: usize = 0;
    while i < ctx.bindings.len()
        invariant
            i <= ctx.bindings@.len(),
            bv == ctx.bindings@.map_values(|f: (String, CtxValue)| binding_view(f)),
            roots@.map_values(|e: (String, Vec<(String, CtxValue)>)| root_view(e)) == grouped(bv.take(i as int)).0,
            top@.map_values(|f: (String, CtxValue)| binding_view(f)) == grouped(bv.take(i as int)).1,
        decreases ctx.bindings@.len() - i,
    {
        let ghost rv0 = roots@.map_values(|e: (String, Vec<(String, CtxValue)>)| root_view(e));
        let ghost tv0 = top@.map_values(|f: (String, CtxValue)| binding_view(f));
        assert(bv.take(i + 1).drop_last() =~= bv.take(i as int));
        assert(bv.take(i + 1).last() == bv[i as int]);
        let key = &ctx.bindings[i].0;
        let val = ctx.bindings[i].1.duplicate();
        match find_dot(key) {
            Some(d) => {
                let n = key.as_str().unicode_len();
                let root = key.as_str().substring_char(0, d).to_string();
                let rest = key.as_str().substring_char(d + 1, n).to_string();
                let mut j: usize = 0;
                while j < roots.len() && !(roots[j].0 == root)
                    invariant
                        j <= roots@.len(),
                        forall|q: int| 0 <= q < j ==> roots@[q].0@ != root@,
                    decreases roots@.len() - j,
                {
                    j = j + 1;
                }
                proof {
                    assert forall|q: int| 0 <= q < j implies rv0[q].0 != root@ by {}
                    lemma_root_index(rv0, root@, j as int);
                }
                let ghost fv = (rest@, val@);
                if j < roots.len() {
                    let ghost r0 = roots@;
                    let (rname, mut fields) = roots.remove(j);
                    let ghost f0 = fields@;
                    assert(rname@ == root@);
                    fields.push((rest, val));
                    assert(fields@.map_values(|f: (String, CtxValue)| binding_view(f)) =~= f0.map_values(
                        |f: (String, CtxValue)| binding_view(f),
                    ).push(fv));
                    roots.insert(j, (rname, fields));
                    proof {
                        assert(roots@ =~= r0.update(j as int, (rname, fields)));
                        assert(roots@.map_values(|e: (String, Vec<(String, CtxValue)>)| root_view(e)) =~= rv0.update(
                            j as int,
                            (root@, rv0[j as int].1.push(fv)),
                        ));
                    }
                } else {
                    let mut fields: Vec<(String, CtxValue)> = Vec::new();
                    fields.push((rest, val));
                    roots.push((root, fields));
                    proof {
                        assert(fields@.map_values(|f: (String, CtxValue)| binding_view(f)) =~= seq![fv]);
                        assert(roots@.map_values(|e: (String, Vec<(String, CtxValue)>)| root_view(e)) =~= rv0.push(
                            (root@, seq![fv]),
                        ));
                    }
                }
            },
            None => {
                top.push((key.clone(), val));
                proof {
                    assert(top@.map_values(|f: (String, CtxValue)| binding_view(f)) =~= tv0.push(bv[i as int]));
                }
            },
        }
        i = i + 1;
    }
    assert(bv.take(ctx.bindings@.len() as int) =~= bv);
    let ghost rv = roots@.map_values(|e: (String, Vec<(String, CtxValue)>)| root_view(e));
    let ghost tv = top@.map_values(|f: (String, CtxValue)| binding_view(f));
    let mut cx = ctx_new();
    let mut k: usize = 0;
    while k < roots.len()
        invariant
            k <= roots@.len(),
            rv == roots@.map_values(|e: (String, Vec<(String, CtxValue)>)| root_view(e)),
            cel_vars(cx) == with_roots(Map::empty(), rv, k as int),
        decreases roots@.len() - k,
    {
        ctx_add_fields(&mut cx, roots[k].0.as_str(), &roots[k].1);
        assert(rv[k as int].1 == roots@[k as int].1@.map_values(|f: (String, CtxValue)| binding_view(f)));
        k = k + 1;
    }
    let mut t: usize = 0;
    while t < top.len()
        invariant
            t <= top@.len(),
            tv == top@.map_values(|f: (String, CtxValue)| binding_view(f)),
            cel_vars(cx) == with_top(with_roots(Map::empty(), rv, rv.len() as int), tv, t as int),
        decreases top@.len() - t,
    {
        ctx_add_scalar(&mut cx, top[t].0.as_str(), &top[t].1);
        t = t + 1;
    }
    ctx_add_sets(&mut cx, &ctx.sets);
    proof {
        use_type_invariant(prog);
    }
    cel_run(prog, &cx)
}

} // verus!
