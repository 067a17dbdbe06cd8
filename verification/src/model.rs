use vstd::prelude::*;

use crate::removal::{
    apply_line_removals, drop_leading_empty, law_kept_lines_are_those_outside_ranges,
    lines_outside, removal_result, restore_final_newline, well_separated,
};
use crate::text::{chars_of, collapse_newlines, join_lines, lines_of};

verus! {

/// The shape of a `cfg` predicate, as far as the test detection reads it.
#[derive(Debug)]
pub enum CfgExpr {
    /// A parenthesized predicate.
    Paren(Box<CfgExpr>),
    /// A path; it holds the identifier when the path is a single identifier.
    Path(Option<String>),
    /// A binary operation on two predicates.
    Binary(Box<CfgExpr>, Box<CfgExpr>),
    /// A call such as `all(..)`: the called expression and the arguments.
    Call(Box<CfgExpr>, Vec<CfgExpr>),
    /// Any other kind of expression.
    Other,
}

/// What the test detection reads of one attribute.
#[derive(Debug)]
pub struct AttrModel {
    /// The attribute's path, when it is a single identifier.
    pub ident: Option<String>,
    /// The attribute's arguments read as an expression, when they read as one.
    pub args: Option<CfgExpr>,
    /// The paths that the nested-meta walk of the arguments visits, in order,
    /// each as its identifier when it is a single identifier; the walk stops
    /// at the first piece it cannot read.
    pub nested: Vec<Option<String>>,
    /// The attribute's tokens.
    pub tokens: Vec<TokenModel>,
}

/// One token of an attribute, as far as the test detection reads it.
#[derive(Debug)]
pub enum TokenModel {
    /// An identifier or keyword, as written.
    Ident(String),
    /// A punctuation character.
    Punct(char),
    /// A literal, as written (a string literal with its quotes).
    Literal(String),
    /// A delimited group and the tokens inside it.
    Group(Vec<TokenModel>),
}

/// The kinds of item.
#[derive(Clone, Copy, Debug, PartialEq, Eq)]
pub enum ItemKind {
    Const,
    Enum,
    ExternCrate,
    Fn,
    ForeignMod,
    Impl,
    Macro,
    Mod,
    Static,
    Struct,
    Trait,
    TraitAlias,
    Type,
    Union,
    Use,
    /// Verbatim tokens, or a kind that has no attribute list here.
    Other,
}

/// What the test detection reads of one item.
#[derive(Debug)]
pub struct ItemModel {
    pub kind: ItemKind,
    /// The item's attributes (empty for `ItemKind::Other`).
    pub attrs: Vec<AttrModel>,
    /// The 1-based line on which the item starts.
    pub start_line: usize,
    /// The 1-based line on which the item ends.
    pub end_line: usize,
    /// The items inside the item's body, for a module with a body (`mod m { .. }`);
    /// empty for every other item.
    pub children: Vec<ItemModel>,
}

pub open spec fn word_test() -> Seq<char> {
    seq!['t', 'e', 's', 't']
}

pub open spec fn word_cfg() -> Seq<char> {
    seq!['c', 'f', 'g']
}

pub open spec fn word_cfg_attr() -> Seq<char> {
    seq!['c', 'f', 'g', '_', 'a', 't', 't', 'r']
}

/// Whether an optional identifier is present and spelled `w`.
pub open spec fn names(id: Option<String>, w: Seq<char>) -> bool {
    id matches Some(s) && s@ == w
}

/// Whether `f`, called with arguments, is one of the combinators `all`,
/// `any` or `not`.
pub open spec fn is_combinator(f: CfgExpr) -> bool {
    f matches CfgExpr::Path(id) && (names(id, seq!['a', 'l', 'l']) || names(id, seq!['a', 'n', 'y'])
        || names(id, seq!['n', 'o', 't']))
}

/// Whether the predicate mentions `test`: it is the identifier `test`, or it
/// holds it inside parentheses, on either side of a binary operation, or in
/// an argument of `all`, `any` or `not`.
pub open spec fn mentions_test(e: CfgExpr) -> bool
    decreases e,
{
    match e {
        CfgExpr::Paren(inner) => mentions_test(*inner),
        CfgExpr::Path(id) => names(id, word_test()),
        CfgExpr::Binary(l, r) => mentions_test(*l) || mentions_test(*r),
        CfgExpr::Call(f, args) => is_combinator(*f) && any_mentions_test(args@),
        CfgExpr::Other => false,
    }
}

/// Whether one of `args` mentions `test`.
pub open spec fn any_mentions_test(args: Seq<CfgExpr>) -> bool
    decreases args,
{
    if args.len() == 0 {
        false
    } else {
        mentions_test(args[0]) || any_mentions_test(args.drop_first())
    }
}

/// Whether the token is the identifier `test`, or a group holding it at any
/// depth. A literal or another identifier that merely contains the letters
/// `test` (such as `"test-utils"` or `testing`) does not count.
pub open spec fn token_is_test(t: TokenModel) -> bool
    decreases t,
{
    match t {
        TokenModel::Ident(s) => s@ == word_test(),
        TokenModel::Group(inner) => tokens_hold_test(inner@),
        _ => false,
    }
}

/// Whether one of the tokens is, or holds, the identifier `test`.
pub open spec fn tokens_hold_test(ts: Seq<TokenModel>) -> bool
    decreases ts,
{
    if ts.len() == 0 {
        false
    } else {
        token_is_test(ts[0]) || tokens_hold_test(ts.drop_first())
    }
}

/// Whether the attribute marks test code: `#[test]`; a `#[cfg(..)]` whose
/// predicate mentions `test`; or a `#[cfg_attr(..)]` whose nested walk meets
/// the path `test` or whose tokens hold the identifier `test`.
pub open spec fn attr_marks_test(a: AttrModel) -> bool {
    ||| names(a.ident, word_test())
    ||| names(a.ident, word_cfg()) && (a.args matches Some(e) && mentions_test(e))
    ||| names(a.ident, word_cfg_attr()) && ((exists|i: int|
        0 <= i < a.nested@.len() && names(#[trigger] a.nested@[i], word_test()))
        || tokens_hold_test(a.tokens@))
}

/// Whether one of the attributes marks test code.
pub open spec fn attrs_mark_test(attrs: Seq<AttrModel>) -> bool {
    exists|i: int| 0 <= i < attrs.len() && attr_marks_test(#[trigger] attrs[i])
}

/// Whether the model's attributes fit its kind: an item of kind
/// `ItemKind::Other` has no attribute list, so its model holds no attributes.
pub open spec fn attrs_fit_kind(m: ItemModel) -> bool {
    m.kind is Other ==> m.attrs@.len() == 0
}

/// Whether the model's inner items fit its kind: only a module has any.
pub open spec fn children_fit_kind(m: ItemModel) -> bool {
    !(m.kind is Mod) ==> m.children@.len() == 0
}

/// Whether an item model reads as a parsed item does: its lines run from line
/// 1 or later forwards, its attributes and inner items fit its kind.
pub open spec fn item_reads_ok(it: ItemModel) -> bool {
    &&& 1 <= it.start_line <= it.end_line
    &&& attrs_fit_kind(it)
    &&& children_fit_kind(it)
}

/// Whether the item and every item inside it read as parsed items do.
pub open spec fn tree_reads_ok(it: ItemModel) -> bool
    decreases it,
{
    item_reads_ok(it) && all_read_ok(it.children@)
}

/// Whether every item of `items`, and every item inside them, reads as a
/// parsed item does.
pub open spec fn all_read_ok(items: Seq<ItemModel>) -> bool
    decreases items,
{
    if items.len() == 0 {
        true
    } else {
        tree_reads_ok(items[0]) && all_read_ok(items.drop_first())
    }
}

/// Adding an item that reads well to a list that reads well keeps it so.
pub proof fn lemma_all_read_ok_push(items: Seq<ItemModel>, it: ItemModel)
    requires
        all_read_ok(items),
        tree_reads_ok(it),
    ensures
        all_read_ok(items.push(it)),
    decreases items.len(),
{
    let all = items.push(it);
    if items.len() == 0 {
        assert(all.drop_first() =~= Seq::<ItemModel>::empty());
        assert(all_read_ok(all.drop_first()));
        assert(all[0] == it);
    } else {
        lemma_all_read_ok_push(items.drop_first(), it);
        assert(all.drop_first() =~= items.drop_first().push(it));
        assert(all[0] == items[0]);
    }
    assert(all_read_ok(all) == (tree_reads_ok(all[0]) && all_read_ok(all.drop_first())));
}

/// Whether items of this kind carry an attribute list.
pub open spec fn kind_has_attrs(k: ItemKind) -> bool {
    !(k is Other)
}

/// Whether the item is test code: it has an attribute list and one of its
/// attributes marks test code.
pub open spec fn item_is_test(it: ItemModel) -> bool {
    kind_has_attrs(it.kind) && attrs_mark_test(it.attrs@)
}

/// The line ranges (start, end) to remove for one item: its own lines when it
/// is test code, otherwise those of the test items inside it.
pub open spec fn item_ranges(it: ItemModel) -> Seq<(usize, usize)>
    decreases it,
{
    if item_is_test(it) {
        seq![(it.start_line, it.end_line)]
    } else {
        test_item_ranges(it.children@)
    }
}

/// The line ranges (start, end) of the test items among `items` and, inside
/// the items that are not test code, among their inner items, in order.
pub open spec fn test_item_ranges(items: Seq<ItemModel>) -> Seq<(usize, usize)>
    decreases items,
{
    if items.len() == 0 {
        seq![]
    } else {
        item_ranges(items[0]) + test_item_ranges(items.drop_first())
    }
}

/// The text that stripping the test items among `items` leaves of `content`.
pub open spec fn stripped_text(content: Seq<char>, items: Seq<ItemModel>) -> Seq<char> {
    removal_result(content, test_item_ranges(items))
}

/// Whether `s` is spelled `w`.
pub fn text_is(s: &str, w: &[char]) -> (b: bool)
    ensures
        b == (s@ == w@),
{
    let cs = chars_of(s);
    if cs.len() != w.len() {
        return false;
    }
    let mut i: usize = 0;
    while i < w.len()
        invariant
            cs@ == s@,
            cs@.len() == w@.len(),
            i <= w@.len(),
            forall|t: int| 0 <= t < i ==> cs@[t] == w@[t],
        decreases w@.len() - i,
    {
        if cs[i] != w[i] {
            proof {
                assert(cs@[i as int] != w@[i as int]);
            }
            return false;
        }
        i += 1;
    }
    proof {
        assert(cs@ =~= w@);
    }
    true
}

fn ident_is(id: &Option<String>, w: &[char]) -> (b: bool)
    ensures
        b == names(*id, w@),
{
    match id {
        Some(s) => text_is(s.as_str(), w),
        None => false,
    }
}

/// Whether the `cfg` predicate `expr` mentions `test`.
pub fn expr_contains_test(expr: &CfgExpr) -> (b: bool)
    ensures
        b == mentions_test(*expr),
    decreases expr,
{
    match expr {
        CfgExpr::Paren(inner) => expr_contains_test(inner),
        CfgExpr::Path(id) => {
            let w = vec!['t', 'e', 's', 't'];
            assert(w@ =~= word_test());
            ident_is(id, w.as_slice())
        },
        CfgExpr::Binary(l, r) => expr_contains_test(l) || expr_contains_test(r),
        CfgExpr::Call(f, args) => {
            let mut combinator = false;
            if let CfgExpr::Path(id) = &**f {
                let a = vec!['a', 'l', 'l'];
                let y = vec!['a', 'n', 'y'];
                let n = vec!['n', 'o', 't'];
                assert(a@ =~= seq!['a', 'l', 'l']);
                assert(y@ =~= seq!['a', 'n', 'y']);
                assert(n@ =~= seq!['n', 'o', 't']);
                combinator = ident_is(id, a.as_slice()) || ident_is(id, y.as_slice()) || ident_is(
                    id,
                    n.as_slice(),
                );
            }
            assert(combinator == is_combinator(**f));
            if !combinator {
                return false;
            }
            let mut i: usize = 0;
            proof {
                assert(args@.skip(0) =~= args@);
            }
            while i < args.len()
                invariant
                    *expr == CfgExpr::Call(*f, *args),
                    is_combinator(**f),
                    i <= args@.len(),
                    any_mentions_test(args@) == any_mentions_test(args@.skip(i as int)),
                decreases args@.len() - i,
            {
                proof {
                    assert(args@.skip(i as int).drop_first() =~= args@.skip(i + 1));
                    assert(args@.skip(i as int)[0] == args@[i as int]);
                    assert(decreases_to!(*expr => (*expr)->Call_1));
                    assert(decreases_to!(*args => args@));
                    assert(decreases_to!(args@ => args@[i as int]));
                    assert(decreases_to!(*expr => args@[i as int]));
                }
                if expr_contains_test(&args[i]) {
                    return true;
                }
                i += 1;
            }
            false
        },
        CfgExpr::Other => false,
    }
}

/// Whether one of the tokens is, or holds, the identifier `test`.
pub fn tokens_contain_test(ts: &[TokenModel]) -> (b: bool)
    ensures
        b == tokens_hold_test(ts@),
    decreases ts@,
{
    let test = vec!['t', 'e', 's', 't'];
    assert(test@ =~= word_test());
    let mut i: usize = 0;
    proof {
        assert(ts@.skip(0) =~= ts@);
    }
    while i < ts.len()
        invariant
            test@ == word_test(),
            i <= ts@.len(),
            tokens_hold_test(ts@) == tokens_hold_test(ts@.skip(i as int)),
        decreases ts@.len() - i,
    {
        proof {
            assert(ts@.skip(i as int).drop_first() =~= ts@.skip(i + 1));
            assert(ts@.skip(i as int)[0] == ts@[i as int]);
        }
        let found = match &ts[i] {
            TokenModel::Ident(s) => text_is(s.as_str(), test.as_slice()),
            TokenModel::Group(inner) => {
                proof {
                    assert(decreases_to!(ts@ => ts@[i as int]));
                    assert(decreases_to!(ts@[i as int] => (ts@[i as int])->Group_0));
                    assert(decreases_to!((ts@[i as int])->Group_0 => inner@));
                }
                tokens_contain_test(inner.as_slice())
            },
            _ => false,
        };
        assert(found == token_is_test(ts@[i as int]));
        if found {
            return true;
        }
        i += 1;
    }
    false
}

fn attr_is_test(a: &AttrModel) -> (b: bool)
    ensures
        b == attr_marks_test(*a),
{
    let test = vec!['t', 'e', 's', 't'];
    let cfg = vec!['c', 'f', 'g'];
    let cfg_attr = vec!['c', 'f', 'g', '_', 'a', 't', 't', 'r'];
    assert(test@ =~= word_test());
    assert(cfg@ =~= word_cfg());
    assert(cfg_attr@ =~= word_cfg_attr());
    if ident_is(&a.ident, test.as_slice()) {
        return true;
    }
    if ident_is(&a.ident, cfg.as_slice()) {
        if let Some(e) = &a.args {
            if expr_contains_test(e) {
                return true;
            }
        }
    }
    if ident_is(&a.ident, cfg_attr.as_slice()) {
        let mut i: usize = 0;
        while i < a.nested.len()
            invariant
                test@ == word_test(),
                names(a.ident, word_cfg_attr()),
                i <= a.nested@.len(),
                forall|t: int| 0 <= t < i ==> !names(#[trigger] a.nested@[t], word_test()),
            decreases a.nested@.len() - i,
        {
            if ident_is(&a.nested[i], test.as_slice()) {
                return true;
            }
            i += 1;
        }
        if tokens_contain_test(a.tokens.as_slice()) {
            return true;
        }
    }
    false
}

/// Whether one of the attributes marks test code (see `attr_marks_test`).
pub fn has_cfg_test(attrs: &[AttrModel]) -> (b: bool)
    ensures
        b == attrs_mark_test(attrs@),
{
    let mut i: usize = 0;
    while i < attrs.len()
        invariant
            i <= attrs@.len(),
            forall|t: int| 0 <= t < i ==> !attr_marks_test(#[trigger] attrs@[t]),
        decreases attrs@.len() - i,
    {
        if attr_is_test(&attrs[i]) {
            return true;
        }
        i += 1;
    }
    false
}

/// The item's attribute list, or `None` for an item of a kind that has none.
pub fn get_item_attrs(item: &ItemModel) -> (r: Option<&[AttrModel]>)
    ensures
        r is Some == kind_has_attrs(item.kind),
        r matches Some(a) ==> a@ == item.attrs@,
{
    match item.kind {
        ItemKind::Other => None,
        _ => Some(item.attrs.as_slice()),
    }
}

fn collect_ranges(items: &[ItemModel], out: &mut Vec<(usize, usize)>)
    ensures
        final(out)@ == old(out)@ + test_item_ranges(items@),
    decreases items@,
{
    let mut i: usize = 0;
    proof {
        assert(items@.skip(0) =~= items@);
        assert(out@ =~= old(out)@ + Seq::<(usize, usize)>::empty());
    }
    while i < items.len()
        invariant
            i <= items@.len(),
            old(out)@ + test_item_ranges(items@) == out@ + test_item_ranges(items@.skip(i as int)),
        decreases items@.len() - i,
    {
        let item = &items[i];
        let ghost before = out@;
        proof {
            assert(items@.skip(i as int).drop_first() =~= items@.skip(i + 1));
            assert(items@.skip(i as int)[0] == items@[i as int]);
        }
        let mut is_test = false;
        if let Some(attrs) = get_item_attrs(item) {
            is_test = has_cfg_test(attrs);
        }
        if is_test {
            out.push((item.start_line, item.end_line));
        } else {
            proof {
                assert(decreases_to!(items@ => items@[i as int]));
                assert(decreases_to!(items@[i as int] => items@[i as int].children));
                assert(decreases_to!(items@[i as int].children => items@[i as int].children@));
            }
            collect_ranges(item.children.as_slice(), out);
        }
        proof {
            assert(out@ =~= before + item_ranges(items@[i as int]));
            let rest = test_item_ranges(items@.skip(i + 1));
            assert(before + (item_ranges(items@[i as int]) + rest) =~= out@ + rest);
        }
        i += 1;
    }
    proof {
        assert(items@.skip(items@.len() as int) =~= Seq::<ItemModel>::empty());
        assert(out@ + Seq::<(usize, usize)>::empty() =~= out@);
    }
}

/// The line ranges (start, end) to remove for `items`: those of the test
/// items among them and, inside the items that are not test code, among
/// their inner items, in order.
pub fn get_lines_to_remove(items: &[ItemModel]) -> (r: Vec<(usize, usize)>)
    ensures
        r@ == test_item_ranges(items@),
{
    let mut lines_to_remove: Vec<(usize, usize)> = Vec::new();
    collect_ranges(items, &mut lines_to_remove);
    proof {
        assert(Seq::<(usize, usize)>::empty() + test_item_ranges(items@) =~= test_item_ranges(
            items@,
        ));
    }
    lines_to_remove
}

/// `content` with the lines of the test items among `items` removed (see
/// `apply_line_removals`).
pub fn strip_items(content: &str, items: &[ItemModel]) -> (r: String)
    ensures
        r@ == stripped_text(content@, items@),
{
    let lines_to_remove = get_lines_to_remove(items);
    apply_line_removals(content, lines_to_remove.as_slice())
}

/// When the test items' line ranges are well separated in the file (as a
/// parser reports separate items, with their attributes inside their spans),
/// stripping keeps exactly the lines that lie in no test item.
pub proof fn law_strip_keeps_lines_outside_test_items(content: Seq<char>, items: Seq<ItemModel>)
    requires
        well_separated(lines_of(content), test_item_ranges(items)),
    ensures
        stripped_text(content, items) == collapse_newlines(
            restore_final_newline(
                content,
                join_lines(
                    drop_leading_empty(
                        lines_outside(
                            lines_of(content),
                            test_item_ranges(items),
                            lines_of(content).len(),
                        ),
                    ),
                ),
            ),
        ),
{
    law_kept_lines_are_those_outside_ranges(lines_of(content), test_item_ranges(items));
}

proof fn lemma_any_mentions_test(args: Seq<CfgExpr>)
    ensures
        any_mentions_test(args) <==> exists|i: int|
            0 <= i < args.len() && mentions_test(#[trigger] args[i]),
    decreases args.len(),
{
    if args.len() > 0 {
        lemma_any_mentions_test(args.drop_first());
        if any_mentions_test(args.drop_first()) {
            let i = choose|i: int|
                0 <= i < args.drop_first().len() && mentions_test(#[trigger] args.drop_first()[i]);
            assert(args[i + 1] == args.drop_first()[i]);
        }
        if exists|i: int| 0 <= i < args.len() && mentions_test(#[trigger] args[i]) {
            let i = choose|i: int| 0 <= i < args.len() && mentions_test(#[trigger] args[i]);
            if i > 0 {
                assert(args.drop_first()[i - 1] == args[i]);
            }
        }
    }
}

/// `all(..)`, `any(..)` and `not(..)` mention `test` exactly when one of their
/// arguments does: the three combinators are read alike.
pub proof fn law_combinators_read_their_arguments(f: CfgExpr, args: Vec<CfgExpr>)
    requires
        is_combinator(f),
    ensures
        mentions_test(CfgExpr::Call(Box::new(f), args)) <==> exists|i: int|
            0 <= i < args@.len() && mentions_test(#[trigger] args@[i]),
{
    lemma_any_mentions_test(args@);
}

/// With two arguments `a` and `b`, `all(a, b)` and `any(a, b)` mention `test`
/// exactly when `a` or `b` does; with one argument `a`, `not(a)` mentions it
/// exactly when `a` does, as `(a)` does.
pub proof fn law_combinators_on_given_arguments(
    f: CfgExpr,
    args: Vec<CfgExpr>,
    a: CfgExpr,
    b: CfgExpr,
)
    requires
        is_combinator(f),
    ensures
        args@ == seq![a, b] ==> (mentions_test(CfgExpr::Call(Box::new(f), args)) <==> (
        mentions_test(a) || mentions_test(b))),
        args@ == seq![a] ==> (mentions_test(CfgExpr::Call(Box::new(f), args)) <==> mentions_test(
            a,
        )),
        mentions_test(CfgExpr::Paren(Box::new(a))) == mentions_test(a),
{
    lemma_any_mentions_test(args@);
    if args@ == seq![a, b] {
        assert(args@[0] == a && args@[1] == b);
    }
    if args@ == seq![a] {
        assert(args@[0] == a);
    }
}

/// Whether the identifier `test` occurs somewhere in the predicate as a
/// path: in the predicate itself, inside parentheses, on either side of a
/// binary operation, or in a call's callee or arguments.
pub open spec fn test_path_occurs(e: CfgExpr) -> bool
    decreases e,
{
    match e {
        CfgExpr::Paren(inner) => test_path_occurs(*inner),
        CfgExpr::Path(id) => names(id, word_test()),
        CfgExpr::Binary(l, r) => test_path_occurs(*l) || test_path_occurs(*r),
        CfgExpr::Call(f, args) => test_path_occurs(*f) || test_path_occurs_in(args@),
        CfgExpr::Other => false,
    }
}

/// Whether the identifier `test` occurs as a path in one of `args`.
pub open spec fn test_path_occurs_in(args: Seq<CfgExpr>) -> bool
    decreases args,
{
    if args.len() == 0 {
        false
    } else {
        test_path_occurs(args[0]) || test_path_occurs_in(args.drop_first())
    }
}

proof fn lemma_mentions_test_needs_test_path(e: CfgExpr)
    ensures
        mentions_test(e) ==> test_path_occurs(e),
    decreases e,
{
    match e {
        CfgExpr::Paren(inner) => lemma_mentions_test_needs_test_path(*inner),
        CfgExpr::Binary(l, r) => {
            lemma_mentions_test_needs_test_path(*l);
            lemma_mentions_test_needs_test_path(*r);
        },
        CfgExpr::Call(f, args) => {
            assert(decreases_to!(e => args));
            assert(decreases_to!(args => args@));
            lemma_args_mention_test_need_test_path(args@);
        },
        _ => {},
    }
}

proof fn lemma_args_mention_test_need_test_path(args: Seq<CfgExpr>)
    ensures
        any_mentions_test(args) ==> test_path_occurs_in(args),
    decreases args,
{
    if args.len() > 0 {
        assert(decreases_to!(args => args[0]));
        lemma_mentions_test_needs_test_path(args[0]);
        lemma_args_mention_test_need_test_path(args.drop_first());
    }
}

/// A `cfg` predicate mentions `test` only where the identifier `test` occurs
/// in it as a path: a predicate of any other kind (`feature = ".."`,
/// `target_os = ".."`, a literal) never does by itself, and neither does a
/// path spelled otherwise.
pub proof fn law_only_the_test_path_is_test(e: CfgExpr, id: Option<String>)
    ensures
        mentions_test(e) ==> test_path_occurs(e),
        !mentions_test(CfgExpr::Other),
        mentions_test(CfgExpr::Path(id)) <==> names(id, word_test()),
{
    lemma_mentions_test_needs_test_path(e);
}

/// A `#[cfg(E)]` attribute marks test code exactly when its predicate `E`
/// mentions `test`; in particular `#[cfg(any(..))]` does exactly when one of
/// the arguments of `any` does.
pub proof fn law_cfg_attribute_follows_its_predicate(a: AttrModel, e: CfgExpr)
    requires
        names(a.ident, word_cfg()),
        a.args == Some(e),
    ensures
        attr_marks_test(a) == mentions_test(e),
{
    assert(!names(a.ident, word_test()));
    assert(word_cfg().len() != word_cfg_attr().len());
    assert(!names(a.ident, word_cfg_attr()));
}

/// `#[cfg(any(a, ..))]` marks test code exactly when one of the arguments of
/// `any` mentions `test` (`#[cfg(any(test, feature = "testing"))]` does).
pub proof fn law_cfg_any_marks_test(a: AttrModel, id: Option<String>, args: Vec<CfgExpr>)
    requires
        names(a.ident, word_cfg()),
        names(id, seq!['a', 'n', 'y']),
        a.args == Some(CfgExpr::Call(Box::new(CfgExpr::Path(id)), args)),
    ensures
        attr_marks_test(a) <==> exists|k: int|
            0 <= k < args@.len() && mentions_test(#[trigger] args@[k]),
{
    assert(!names(a.ident, word_test()));
    assert(word_cfg().len() != word_cfg_attr().len());
    assert(!names(a.ident, word_cfg_attr()));
    lemma_any_mentions_test(args@);
}

/// Every item kind the parser produces, all but verbatim tokens, carries an
/// attribute list that the test detection reads (impl blocks, modules,
/// traits and uses included).
pub proof fn law_parsed_kinds_carry_attributes(k: ItemKind)
    requires
        !(k is Other),
    ensures
        kind_has_attrs(k),
{
}

proof fn lemma_item_ranges_in_list(items: Seq<ItemModel>, j: int, r: (usize, usize))
    requires
        0 <= j < items.len(),
        item_ranges(items[j]).contains(r),
    ensures
        test_item_ranges(items).contains(r),
    decreases items.len(),
{
    let rest = test_item_ranges(items.drop_first());
    if j == 0 {
        let k = choose|k: int| 0 <= k < item_ranges(items[0]).len() && item_ranges(items[0])[k] == r;
        assert((item_ranges(items[0]) + rest)[k] == r);
    } else {
        assert(items.drop_first()[j - 1] == items[j]);
        lemma_item_ranges_in_list(items.drop_first(), j - 1, r);
        let k = choose|k: int| 0 <= k < rest.len() && rest[k] == r;
        assert((item_ranges(items[0]) + rest)[item_ranges(items[0]).len() + k] == r);
    }
}

/// An item of any parsed kind whose attribute at any position is `#[test]`,
/// or `#[cfg(E)]` with `E` mentioning `test`, is test code: its own lines are
/// the one range removed for it, and that range is among those removed for
/// any list that holds it.
pub proof fn law_test_attribute_anywhere_removes_item(items: Seq<ItemModel>, j: int, i: int)
    requires
        0 <= j < items.len(),
        !(items[j].kind is Other),
        0 <= i < items[j].attrs@.len(),
        names(items[j].attrs@[i].ident, word_test()) || (names(
            items[j].attrs@[i].ident,
            word_cfg(),
        ) && (items[j].attrs@[i].args matches Some(e) && mentions_test(e))),
    ensures
        item_ranges(items[j]) == seq![(items[j].start_line, items[j].end_line)],
        test_item_ranges(items).contains((items[j].start_line, items[j].end_line)),
{
    let it = items[j];
    assert(attr_marks_test(it.attrs@[i]));
    assert(attrs_mark_test(it.attrs@));
    assert(item_ranges(it)[0] == (it.start_line, it.end_line));
    lemma_item_ranges_in_list(items, j, (it.start_line, it.end_line));
}

} // verus!
