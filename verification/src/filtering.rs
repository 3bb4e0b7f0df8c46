//! Compiled filter trees and their evaluation.
//!
//! A group's filter tree is compiled once: regex leaves hold a compiled
//! pattern, expression leaves are checked against the template environment.
//! Evaluation short-circuits conjunctions on the first false clause and
//! disjunctions on the first true one.  For trees without expression
//! leaves the result is pinned down exactly by [`filter_eval`]; an
//! expression leaf asks the template engine, and only the short-circuit
//! behaviour around it is promised.

use vstd::prelude::*;

verus! {

broadcast use vstd::std_specs::vec::axiom_vec_index_decreases;

use crate::config::Filter;
use crate::item::FeedItem;
use crate::regexes::{CompiledRegex, regex_valid, regex_matches, regex_compile, regex_is_match};
use crate::render::{expr_valid, expr_check, eval_expr_truthy};

/// A filter tree with its leaves compiled.
pub enum CompiledFilter {
    And(Vec<CompiledFilter>),
    Or(Vec<CompiledFilter>),
    Not(Box<CompiledFilter>),
    TitleRegex(CompiledRegex),
    BodyRegex(CompiledRegex),
    Regex(CompiledRegex),
    JinjaExpr(String),
}

/// Whether every leaf of the source tree is accepted: regex leaves by the
/// regex engine, expression leaves by the template engine.
pub open spec fn filter_compilable(f: Filter) -> bool
    decreases f,
{
    match f {
        Filter::And(subs) => all_compilable(subs@, 0),
        Filter::Or(subs) => all_compilable(subs@, 0),
        Filter::Not(sub) => filter_compilable(*sub),
        Filter::TitleRegex(p) => regex_valid(p@),
        Filter::BodyRegex(p) => regex_valid(p@),
        Filter::Regex(p) => regex_valid(p@),
        Filter::JinjaExpr(e) => expr_valid(e@),
    }
}

/// Whether every subfilter from index `i` on is compilable.
pub open spec fn all_compilable(subs: Seq<Filter>, i: int) -> bool
    decreases subs, subs.len() - i,
{
    if i < 0 || i >= subs.len() {
        true
    } else {
        filter_compilable(subs[i]) && all_compilable(subs, i + 1)
    }
}

/// Whether the compiled tree has the shape of the source tree, leaf by
/// leaf: equal patterns at regex leaves, equal sources at expression
/// leaves.
pub open spec fn compiled_from(c: CompiledFilter, f: Filter) -> bool
    decreases f,
{
    match f {
        Filter::And(fs) => (c matches CompiledFilter::And(cs) && cs@.len() == fs@.len()
            && all_compiled_from(cs@, fs@, 0)),
        Filter::Or(fs) => (c matches CompiledFilter::Or(cs) && cs@.len() == fs@.len()
            && all_compiled_from(cs@, fs@, 0)),
        Filter::Not(fsub) => (c matches CompiledFilter::Not(csub) && compiled_from(
            *csub,
            *fsub,
        )),
        Filter::TitleRegex(p) => (c matches CompiledFilter::TitleRegex(re) && re.pattern_view()
            == p@),
        Filter::BodyRegex(p) => (c matches CompiledFilter::BodyRegex(re) && re.pattern_view()
            == p@),
        Filter::Regex(p) => (c matches CompiledFilter::Regex(re) && re.pattern_view() == p@),
        Filter::JinjaExpr(e) => (c matches CompiledFilter::JinjaExpr(s) && s@ == e@),
    }
}

/// Whether each compiled subfilter from index `i` on mirrors its source.
pub open spec fn all_compiled_from(cs: Seq<CompiledFilter>, fs: Seq<Filter>, i: int) -> bool
    decreases fs, fs.len() - i,
{
    if i < 0 || i >= fs.len() || cs.len() != fs.len() {
        true
    } else {
        compiled_from(cs[i], fs[i]) && all_compiled_from(cs, fs, i + 1)
    }
}

/// Whether the tree has no expression leaf, so that evaluation never asks
/// the template engine.
pub open spec fn expr_free(f: CompiledFilter) -> bool
    decreases f,
{
    match f {
        CompiledFilter::And(subs) => all_expr_free(subs@, 0),
        CompiledFilter::Or(subs) => all_expr_free(subs@, 0),
        CompiledFilter::Not(sub) => expr_free(*sub),
        CompiledFilter::JinjaExpr(_) => false,
        _ => true,
    }
}

/// Whether every subfilter from index `i` on is expression-free.
pub open spec fn all_expr_free(subs: Seq<CompiledFilter>, i: int) -> bool
    decreases subs, subs.len() - i,
{
    if i < 0 || i >= subs.len() {
        true
    } else {
        expr_free(subs[i]) && all_expr_free(subs, i + 1)
    }
}

/// Whether the pattern matches the item's title.
pub open spec fn title_matches(p: Seq<char>, item: FeedItem) -> bool {
    item.title matches Some(t) && regex_matches(p, t.content@)
}

/// Whether the pattern matches the item's summary or its content body.
pub open spec fn body_matches(p: Seq<char>, item: FeedItem) -> bool {
    ||| (item.summary matches Some(s) && regex_matches(p, s.content@))
    ||| (item.content matches Some(c) && c.body matches Some(b) && regex_matches(p, b@))
}

/// What an expression-free filter decides for an item.  An empty
/// conjunction is true, an empty disjunction false; expression leaves are
/// given the placeholder true and are meaningful only through evaluation.
pub open spec fn filter_eval(f: CompiledFilter, item: FeedItem) -> bool
    decreases f,
{
    match f {
        CompiledFilter::And(subs) => and_eval(subs@, item, 0),
        CompiledFilter::Or(subs) => or_eval(subs@, item, 0),
        CompiledFilter::Not(sub) => !filter_eval(*sub, item),
        CompiledFilter::TitleRegex(re) => title_matches(re.pattern_view(), item),
        CompiledFilter::BodyRegex(re) => body_matches(re.pattern_view(), item),
        CompiledFilter::Regex(re) => title_matches(re.pattern_view(), item) || body_matches(
            re.pattern_view(),
            item,
        ),
        CompiledFilter::JinjaExpr(_) => true,
    }
}

/// The conjunction of the subfilters from index `i` on.
pub open spec fn and_eval(subs: Seq<CompiledFilter>, item: FeedItem, i: int) -> bool
    decreases subs, subs.len() - i,
{
    if i < 0 || i >= subs.len() {
        true
    } else {
        filter_eval(subs[i], item) && and_eval(subs, item, i + 1)
    }
}

/// The disjunction of the subfilters from index `i` on.
pub open spec fn or_eval(subs: Seq<CompiledFilter>, item: FeedItem, i: int) -> bool
    decreases subs, subs.len() - i,
{
    if i < 0 || i >= subs.len() {
        false
    } else {
        filter_eval(subs[i], item) || or_eval(subs, item, i + 1)
    }
}

/// The conjunction from `i` on holds exactly when every clause from `i` on
/// holds.
pub proof fn lemma_and_eval_forall(subs: Seq<CompiledFilter>, item: FeedItem, i: int)
    requires
        0 <= i <= subs.len(),
    ensures
        and_eval(subs, item, i) <==> (forall|j: int| i <= j < subs.len() ==> filter_eval(
            subs[j],
            item,
        )),
    decreases subs.len() - i,
{
    if i < subs.len() {
        lemma_and_eval_forall(subs, item, i + 1);
    }
}

/// The disjunction from `i` on holds exactly when some clause from `i` on
/// holds.
pub proof fn lemma_or_eval_exists(subs: Seq<CompiledFilter>, item: FeedItem, i: int)
    requires
        0 <= i <= subs.len(),
    ensures
        or_eval(subs, item, i) <==> (exists|j: int| i <= j < subs.len() && filter_eval(
            subs[j],
            item,
        )),
    decreases subs.len() - i,
{
    if i < subs.len() {
        lemma_or_eval_exists(subs, item, i + 1);
    }
}

/// The empty conjunction accepts every item.
pub proof fn lemma_empty_and_true(f: CompiledFilter, item: FeedItem)
    requires
        f matches CompiledFilter::And(subs) && subs@.len() == 0,
    ensures
        filter_eval(f, item),
{
    match f {
        CompiledFilter::And(subs) => {
            assert(and_eval(subs@, item, 0));
            assert(filter_eval(f, item));
        },
        _ => {},
    }
}

/// The empty disjunction rejects every item.
pub proof fn lemma_empty_or_false(f: CompiledFilter, item: FeedItem)
    requires
        f matches CompiledFilter::Or(subs) && subs@.len() == 0,
    ensures
        !filter_eval(f, item),
{
    match f {
        CompiledFilter::Or(subs) => {
            assert(!or_eval(subs@, item, 0));
            assert(!filter_eval(f, item));
        },
        _ => {},
    }
}

/// Whether `f` is the double negation `Not(Not(x))` of `x`.
pub open spec fn is_double_not_of(f: CompiledFilter, x: CompiledFilter) -> bool {
    f matches CompiledFilter::Not(inner) && *inner matches CompiledFilter::Not(y) && *y == x
}

/// Double negation decides as the filter under it does.
pub proof fn lemma_double_negation(f: CompiledFilter, x: CompiledFilter, item: FeedItem)
    requires
        is_double_not_of(f, x),
    ensures
        filter_eval(f, item) == filter_eval(x, item),
{
    match f {
        CompiledFilter::Not(inner) => {
            assert(filter_eval(f, item) == !filter_eval(*inner, item));
            match *inner {
                CompiledFilter::Not(y) => {
                    assert(filter_eval(*inner, item) == !filter_eval(*y, item));
                },
                _ => {},
            }
        },
        _ => {},
    }
}

/// Whether some clause with an expression-free prefix before it evaluates
/// false while everything before it evaluates true: the conjunction then
/// short-circuits to false whatever stands after that clause.
pub open spec fn hits_false_prefix(subs: Seq<CompiledFilter>, item: FeedItem) -> bool {
    exists|k: int|
        0 <= k < subs.len() && !filter_eval(subs[k], item) && (forall|j: int|
            0 <= j <= k ==> expr_free(subs[j])) && (forall|j: int|
            0 <= j < k ==> filter_eval(subs[j], item))
}

/// The disjunction counterpart: a true clause behind an expression-free,
/// all-false prefix short-circuits the disjunction to true.
pub open spec fn hits_true_prefix(subs: Seq<CompiledFilter>, item: FeedItem) -> bool {
    exists|k: int|
        0 <= k < subs.len() && filter_eval(subs[k], item) && (forall|j: int|
            0 <= j <= k ==> expr_free(subs[j])) && (forall|j: int|
            0 <= j < k ==> !filter_eval(subs[j], item))
}

/// Whether the source tree has no expression leaf.
pub open spec fn source_expr_free(f: Filter) -> bool
    decreases f,
{
    match f {
        Filter::And(subs) => all_source_expr_free(subs@, 0),
        Filter::Or(subs) => all_source_expr_free(subs@, 0),
        Filter::Not(sub) => source_expr_free(*sub),
        Filter::JinjaExpr(_) => false,
        _ => true,
    }
}

/// Whether every source subfilter from index `i` on is expression-free.
pub open spec fn all_source_expr_free(subs: Seq<Filter>, i: int) -> bool
    decreases subs, subs.len() - i,
{
    if i < 0 || i >= subs.len() {
        true
    } else {
        source_expr_free(subs[i]) && all_source_expr_free(subs, i + 1)
    }
}

/// What an expression-free source tree decides for an item, stated over
/// the configuration's own filter type: an empty conjunction is true, an
/// empty disjunction false, and the regex leaves test the item's title,
/// summary and content body.
pub open spec fn filter_holds(f: Filter, item: FeedItem) -> bool
    decreases f,
{
    match f {
        Filter::And(subs) => and_holds(subs@, item, 0),
        Filter::Or(subs) => or_holds(subs@, item, 0),
        Filter::Not(sub) => !filter_holds(*sub, item),
        Filter::TitleRegex(p) => title_matches(p@, item),
        Filter::BodyRegex(p) => body_matches(p@, item),
        Filter::Regex(p) => title_matches(p@, item) || body_matches(p@, item),
        Filter::JinjaExpr(_) => true,
    }
}

/// The conjunction of the source subfilters from index `i` on.
pub open spec fn and_holds(subs: Seq<Filter>, item: FeedItem, i: int) -> bool
    decreases subs, subs.len() - i,
{
    if i < 0 || i >= subs.len() {
        true
    } else {
        filter_holds(subs[i], item) && and_holds(subs, item, i + 1)
    }
}

/// The disjunction of the source subfilters from index `i` on.
pub open spec fn or_holds(subs: Seq<Filter>, item: FeedItem, i: int) -> bool
    decreases subs, subs.len() - i,
{
    if i < 0 || i >= subs.len() {
        false
    } else {
        filter_holds(subs[i], item) || or_holds(subs, item, i + 1)
    }
}

/// A compiled tree decides exactly as its source tree: compilation
/// preserves expression-freeness, and on expression-free trees
/// [`filter_eval`] agrees with [`filter_holds`].
pub proof fn lemma_compiled_eval_matches_source(c: CompiledFilter, f: Filter, item: FeedItem)
    requires
        compiled_from(c, f),
    ensures
        expr_free(c) == source_expr_free(f),
        source_expr_free(f) ==> filter_eval(c, item) == filter_holds(f, item),
    decreases f,
{
    match f {
        Filter::And(fs) => {
            match c {
                CompiledFilter::And(cs) => {
                    lemma_compiled_lists_match(cs@, fs@, item, 0);
                },
                _ => {},
            }
        },
        Filter::Or(fs) => {
            match c {
                CompiledFilter::Or(cs) => {
                    lemma_compiled_lists_match(cs@, fs@, item, 0);
                },
                _ => {},
            }
        },
        Filter::Not(fsub) => {
            match c {
                CompiledFilter::Not(csub) => {
                    lemma_compiled_eval_matches_source(*csub, *fsub, item);
                },
                _ => {},
            }
        },
        _ => {},
    }
}

/// The list counterpart of [`lemma_compiled_eval_matches_source`].
proof fn lemma_compiled_lists_match(
    cs: Seq<CompiledFilter>,
    fs: Seq<Filter>,
    item: FeedItem,
    i: int,
)
    requires
        cs.len() == fs.len(),
        all_compiled_from(cs, fs, i),
        0 <= i <= fs.len(),
    ensures
        all_expr_free(cs, i) == all_source_expr_free(fs, i),
        all_source_expr_free(fs, i) ==> and_eval(cs, item, i) == and_holds(fs, item, i)
            && or_eval(cs, item, i) == or_holds(fs, item, i),
    decreases fs, fs.len() - i,
{
    if i < fs.len() {
        lemma_compiled_eval_matches_source(cs[i], fs[i], item);
        lemma_compiled_lists_match(cs, fs, item, i + 1);
    }
}

impl CompiledFilter {
    /// Compile a source tree against the template environment.  Succeeds
    /// exactly when every leaf is accepted, and the result mirrors the
    /// source leaf by leaf.
    pub fn compile(f: &Filter, env: &minijinja::Environment<'static>) -> (r: Result<
        CompiledFilter,
        String,
    >)
        ensures
            r is Ok <==> filter_compilable(*f),
            (r matches Ok(c) ==> compiled_from(c, *f)),
        decreases *f,
    {
        match f {
            Filter::And(fs) => match Self::compile_list(fs, env) {
                Ok(cs) => Ok(CompiledFilter::And(cs)),
                Err(e) => Err(e),
            },
            Filter::Or(fs) => match Self::compile_list(fs, env) {
                Ok(cs) => Ok(CompiledFilter::Or(cs)),
                Err(e) => Err(e),
            },
            Filter::Not(sub) => match Self::compile(sub, env) {
                Ok(c) => Ok(CompiledFilter::Not(Box::new(c))),
                Err(e) => Err(e),
            },
            Filter::TitleRegex(p) => match regex_compile(p.as_str()) {
                Ok(re) => Ok(CompiledFilter::TitleRegex(re)),
                Err(e) => Err(e),
            },
            Filter::BodyRegex(p) => match regex_compile(p.as_str()) {
                Ok(re) => Ok(CompiledFilter::BodyRegex(re)),
                Err(e) => Err(e),
            },
            Filter::Regex(p) => match regex_compile(p.as_str()) {
                Ok(re) => Ok(CompiledFilter::Regex(re)),
                Err(e) => Err(e),
            },
            Filter::JinjaExpr(src) => match expr_check(env, src.as_str()) {
                Ok(()) => Ok(CompiledFilter::JinjaExpr(src.clone())),
                Err(e) => Err(e),
            },
        }
    }

    /// Compile every subfilter of a conjunction or disjunction.
    fn compile_list(fs: &Vec<Filter>, env: &minijinja::Environment<'static>) -> (r: Result<
        Vec<CompiledFilter>,
        String,
    >)
        ensures
            r is Ok <==> all_compilable(fs@, 0),
            (r matches Ok(cs) ==> cs@.len() == fs@.len() && all_compiled_from(cs@, fs@, 0)),
        decreases fs@,
    {
        let mut cs: Vec<CompiledFilter> = Vec::new();
        for i in 0..fs.len()
            invariant
                cs@.len() == i,
                forall|j: int| 0 <= j < i ==> filter_compilable(fs@[j]),
                forall|j: int| 0 <= j < i ==> compiled_from(#[trigger] cs@[j], fs@[j]),
            decreases fs.len() - i,
        {
            match Self::compile(&fs[i], env) {
                Ok(c) => cs.push(c),
                Err(e) => {
                    proof {
                        lemma_all_compilable_break(fs@, i as int);
                    }
                    return Err(e);
                },
            }
        }
        proof {
            lemma_all_compilable_join(fs@, 0);
            lemma_all_compiled_from_join(cs@, fs@, 0);
        }
        Ok(cs)
    }

    /// Evaluate the tree for the item.  Expression-free trees decide as
    /// [`filter_eval`] says; a conjunction short-circuits on the first
    /// false clause and a disjunction on the first true one, whatever
    /// stands after it.
    #[verifier::loop_isolation(false)]
    pub fn evaluate(
        &self,
        env: &minijinja::Environment<'static>,
        ctx: &minijinja::Value,
        item: &FeedItem,
    ) -> (r: Result<bool, String>)
        ensures
            expr_free(*self) ==> r == Ok::<bool, String>(filter_eval(*self, *item)),
            (*self matches CompiledFilter::And(subs) && hits_false_prefix(subs@, *item) ==> r
                == Ok::<bool, String>(false)),
            (*self matches CompiledFilter::Or(subs) && hits_true_prefix(subs@, *item) ==> r
                == Ok::<bool, String>(true)),
        decreases *self,
    {
        match self {
            CompiledFilter::And(subs) => {
                proof {
                    assert(*self == CompiledFilter::And(*subs));
                }
                for i in 0..subs.len()
                    invariant
                        forall|j: int| 0 <= j < i ==> (expr_free(#[trigger] subs@[j])
                            ==> filter_eval(subs@[j], *item)),
                    decreases subs.len() - i,
                {
                    match subs[i].evaluate(env, ctx, item) {
                        Ok(true) => (),
                        Ok(false) => {
                            proof {
                                if expr_free(*self) {
                                    lemma_all_expr_free_at(subs@, i as int);
                                    lemma_and_eval_forall(subs@, *item, 0);
                                }
                            }
                            return Ok(false);
                        },
                        Err(e) => {
                            proof {
                                lemma_no_witness_on_error(subs@, *item, i as int);
                                if expr_free(*self) {
                                    lemma_all_expr_free_at(subs@, i as int);
                                }
                            }
                            return Err(e);
                        },
                    }
                }
                proof {
                    if expr_free(*self) {
                        assert forall|j: int| 0 <= j < subs@.len() implies filter_eval(
                            subs@[j],
                            *item,
                        ) by {
                            lemma_all_expr_free_at(subs@, j);
                        }
                        lemma_and_eval_forall(subs@, *item, 0);
                    }
                    lemma_no_false_witness_on_all_true(subs@, *item);
                }
                Ok(true)
            },
            CompiledFilter::Or(subs) => {
                proof {
                    assert(*self == CompiledFilter::Or(*subs));
                }
                for i in 0..subs.len()
                    invariant
                        forall|j: int| 0 <= j < i ==> (expr_free(#[trigger] subs@[j])
                            ==> !filter_eval(subs@[j], *item)),
                    decreases subs.len() - i,
                {
                    match subs[i].evaluate(env, ctx, item) {
                        Ok(true) => {
                            proof {
                                if expr_free(*self) {
                                    lemma_all_expr_free_at(subs@, i as int);
                                    lemma_or_eval_exists(subs@, *item, 0);
                                }
                            }
                            return Ok(true);
                        },
                        Ok(false) => (),
                        Err(e) => {
                            proof {
                                lemma_no_true_witness_on_error(subs@, *item, i as int);
                                if expr_free(*self) {
                                    lemma_all_expr_free_at(subs@, i as int);
                                }
                            }
                            return Err(e);
                        },
                    }
                }
                proof {
                    if expr_free(*self) {
                        assert forall|j: int| 0 <= j < subs@.len() implies !filter_eval(
                            subs@[j],
                            *item,
                        ) by {
                            lemma_all_expr_free_at(subs@, j);
                        }
                        lemma_or_eval_exists(subs@, *item, 0);
                    }
                    lemma_no_true_witness_on_all_false(subs@, *item);
                }
                Ok(false)
            },
            CompiledFilter::Not(sub) => match sub.evaluate(env, ctx, item) {
                Ok(b) => Ok(!b),
                Err(e) => Err(e),
            },
            CompiledFilter::TitleRegex(re) => Ok(
                match &item.title {
                    Option::Some(t) => regex_is_match(re, t.content.as_str()),
                    Option::None => false,
                },
            ),
            CompiledFilter::BodyRegex(re) => Ok(eval_body_matches(re, item)),
            CompiledFilter::Regex(re) => {
                let title = match &item.title {
                    Option::Some(t) => regex_is_match(re, t.content.as_str()),
                    Option::None => false,
                };
                Ok(title || eval_body_matches(re, item))
            },
            CompiledFilter::JinjaExpr(src) => eval_expr_truthy(env, src.as_str(), ctx),
        }
    }
}

/// Test the pattern against the summary and the content body.
fn eval_body_matches(re: &CompiledRegex, item: &FeedItem) -> (r: bool)
    ensures
        r == body_matches(re.pattern_view(), *item),
{
    let summary = match &item.summary {
        Option::Some(s) => regex_is_match(re, s.content.as_str()),
        Option::None => false,
    };
    if summary {
        return true;
    }
    match &item.content {
        Option::Some(c) => match &c.body {
            Option::Some(b) => regex_is_match(re, b.as_str()),
            Option::None => false,
        },
        Option::None => false,
    }
}

proof fn lemma_all_compilable_break(fs: Seq<Filter>, i: int)
    requires
        0 <= i < fs.len(),
        !filter_compilable(fs[i]),
    ensures
        !all_compilable(fs, 0),
    decreases i,
{
    lemma_all_compilable_prefix(fs, 0, i);
}

proof fn lemma_all_compilable_prefix(fs: Seq<Filter>, j: int, i: int)
    requires
        0 <= j <= i < fs.len(),
        !filter_compilable(fs[i]),
    ensures
        !all_compilable(fs, j),
    decreases i - j,
{
    if j < i {
        lemma_all_compilable_prefix(fs, j + 1, i);
    }
}

proof fn lemma_all_compilable_join(fs: Seq<Filter>, j: int)
    requires
        0 <= j <= fs.len(),
        forall|k: int| j <= k < fs.len() ==> filter_compilable(fs[k]),
    ensures
        all_compilable(fs, j),
    decreases fs.len() - j,
{
    if j < fs.len() {
        lemma_all_compilable_join(fs, j + 1);
    }
}

proof fn lemma_all_compiled_from_join(cs: Seq<CompiledFilter>, fs: Seq<Filter>, j: int)
    requires
        0 <= j <= fs.len(),
        cs.len() == fs.len(),
        forall|k: int| j <= k < fs.len() ==> compiled_from(#[trigger] cs[k], fs[k]),
    ensures
        all_compiled_from(cs, fs, j),
    decreases fs.len() - j,
{
    if j < fs.len() {
        lemma_all_compiled_from_join(cs, fs, j + 1);
    }
}

proof fn lemma_all_expr_free_at(subs: Seq<CompiledFilter>, i: int)
    requires
        0 <= i < subs.len(),
        all_expr_free(subs, 0),
    ensures
        expr_free(subs[i]),
{
    lemma_all_expr_free_unfold(subs, 0, i);
}

proof fn lemma_all_expr_free_unfold(subs: Seq<CompiledFilter>, j: int, i: int)
    requires
        0 <= j <= i < subs.len(),
        all_expr_free(subs, j),
    ensures
        expr_free(subs[i]),
    decreases i - j,
{
    if j < i {
        lemma_all_expr_free_unfold(subs, j + 1, i);
    }
}

proof fn lemma_no_witness_on_error(subs: Seq<CompiledFilter>, item: FeedItem, i: int)
    requires
        0 <= i < subs.len(),
        !expr_free(subs[i]),
        forall|j: int| 0 <= j < i ==> (expr_free(#[trigger] subs[j]) ==> filter_eval(subs[j], item)),
    ensures
        !hits_false_prefix(subs, item),
{
    if hits_false_prefix(subs, item) {
        let k = choose|k: int|
            0 <= k < subs.len() && !filter_eval(subs[k], item) && (forall|j: int|
                0 <= j <= k ==> expr_free(subs[j])) && (forall|j: int|
                0 <= j < k ==> filter_eval(subs[j], item));
        assert(k != i);
        if k < i {
            assert(expr_free(subs[k]));
            assert(filter_eval(subs[k], item));
        } else {
            assert(expr_free(subs[i]));
        }
    }
}

proof fn lemma_no_true_witness_on_error(subs: Seq<CompiledFilter>, item: FeedItem, i: int)
    requires
        0 <= i < subs.len(),
        !expr_free(subs[i]),
        forall|j: int| 0 <= j < i ==> (expr_free(#[trigger] subs[j]) ==> !filter_eval(
            subs[j],
            item,
        )),
    ensures
        !hits_true_prefix(subs, item),
{
    if hits_true_prefix(subs, item) {
        let k = choose|k: int|
            0 <= k < subs.len() && filter_eval(subs[k], item) && (forall|j: int|
                0 <= j <= k ==> expr_free(subs[j])) && (forall|j: int|
                0 <= j < k ==> !filter_eval(subs[j], item));
        assert(k != i);
        if k < i {
            assert(expr_free(subs[k]));
            assert(!filter_eval(subs[k], item));
        } else {
            assert(expr_free(subs[i]));
        }
    }
}

proof fn lemma_no_false_witness_on_all_true(subs: Seq<CompiledFilter>, item: FeedItem)
    requires
        forall|j: int| 0 <= j < subs.len() ==> (expr_free(#[trigger] subs[j]) ==> filter_eval(
            subs[j],
            item,
        )),
    ensures
        !hits_false_prefix(subs, item),
{
    if hits_false_prefix(subs, item) {
        let k = choose|k: int|
            0 <= k < subs.len() && !filter_eval(subs[k], item) && (forall|j: int|
                0 <= j <= k ==> expr_free(subs[j])) && (forall|j: int|
                0 <= j < k ==> filter_eval(subs[j], item));
        assert(expr_free(subs[k]));
    }
}

proof fn lemma_no_true_witness_on_all_false(subs: Seq<CompiledFilter>, item: FeedItem)
    requires
        forall|j: int| 0 <= j < subs.len() ==> (expr_free(#[trigger] subs[j]) ==> !filter_eval(
            subs[j],
            item,
        )),
    ensures
        !hits_true_prefix(subs, item),
{
    if hits_true_prefix(subs, item) {
        let k = choose|k: int|
            0 <= k < subs.len() && filter_eval(subs[k], item) && (forall|j: int|
                0 <= j <= k ==> expr_free(subs[j])) && (forall|j: int|
                0 <= j < k ==> !filter_eval(subs[j], item));
        assert(expr_free(subs[k]));
    }
}

} // verus!
