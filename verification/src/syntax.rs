use vstd::prelude::*;

use crate::model::{
    all_read_ok, item_reads_ok, lemma_all_read_ok_push, stripped_text, strip_items, tree_reads_ok,
    AttrModel, CfgExpr, ItemKind, ItemModel, TokenModel,
};
use syn::Item;

verus! {

#[verifier::external_type_specification]
#[verifier::external_body]
pub struct ExSynFile(syn::File);

#[verifier::external_type_specification]
#[verifier::external_body]
pub struct ExSynItem(syn::Item);

#[verifier::external_type_specification]
#[verifier::external_body]
pub struct ExSynAttribute(syn::Attribute);

#[verifier::external_type_specification]
#[verifier::external_body]
pub struct ExSynExpr(syn::Expr);

#[verifier::external_type_specification]
#[verifier::external_body]
pub struct ExSynError(syn::Error);

#[verifier::external_type_specification]
#[verifier::external_body]
pub struct ExTokenStream(proc_macro2::TokenStream);

/// The number of top-level items that `syn::parse_file` finds in `content`
/// when it accepts the text as a Rust source file; `None` when it does not.
pub uninterp spec fn syn_item_count(content: Seq<char>) -> Option<nat>;

/// Calls `syn::parse_file` and takes the parsed file's `items` field. The
/// contract names what the call gives, a function of the text alone, as far
/// as plain values hold it: whether it succeeds and how many top-level items
/// it finds. The items themselves are left unsaid, as a `syn::Item` has no
/// view to state them over.
#[verifier::external_body]
fn parse_file_items(content: &str) -> (r: Result<Vec<syn::Item>, syn::Error>)
    ensures
        r is Ok == syn_item_count(content@) is Some,
        r matches Ok(v) ==> syn_item_count(content@) == Some(v@.len()),
{
    syn::parse_file(content).map(|file| file.items)
}

/// The message of a `syn::Error`, by its `Display` impl (`to_string`).
/// Nothing is claimed of the text.
#[verifier::external_body]
fn error_message(e: &syn::Error) -> String {
    e.to_string()
}

/// The top-level items of a parsed file (the `items` field of `syn::File`).
#[verifier::external_body]
fn file_items(file: &syn::File) -> &Vec<syn::Item> {
    &file.items
}

/// The items in the body of a module with a body (the `content` field of
/// `syn::ItemMod`); no items for any other item.
#[verifier::external_body]
fn module_body_items(item: &syn::Item) -> &[syn::Item] {
    match item {
        Item::Mod(m) => match &m.content {
            Some((_, items)) => items.as_slice(),
            None => &[],
        },
        _ => &[],
    }
}

/// For the definition-like kinds of `syn::Item`, the kind and the item's
/// `attrs` field; `None` for other kinds. The contract claims only that the
/// kind given is never `ItemKind::Other`, as every arm of the body shows.
#[verifier::external_body]
fn definition_parts(item: &syn::Item) -> (r: Option<(ItemKind, &[syn::Attribute])>)
    ensures
        r matches Some((k, _)) ==> !(k is Other),
{
    match item {
        Item::Const(i) => Some((ItemKind::Const, &i.attrs)),
        Item::Enum(i) => Some((ItemKind::Enum, &i.attrs)),
        Item::Fn(i) => Some((ItemKind::Fn, &i.attrs)),
        Item::Static(i) => Some((ItemKind::Static, &i.attrs)),
        Item::Struct(i) => Some((ItemKind::Struct, &i.attrs)),
        Item::Type(i) => Some((ItemKind::Type, &i.attrs)),
        Item::Union(i) => Some((ItemKind::Union, &i.attrs)),
        _ => None,
    }
}

/// For the module-level kinds of `syn::Item` (crates, foreign blocks, impls,
/// macros, modules, traits, uses), the kind and the item's `attrs` field;
/// `None` for other kinds. The contract claims only that the kind given is
/// never `ItemKind::Other`, as every arm of the body shows.
#[verifier::external_body]
fn module_parts(item: &syn::Item) -> (r: Option<(ItemKind, &[syn::Attribute])>)
    ensures
        r matches Some((k, _)) ==> !(k is Other),
{
    match item {
        Item::ExternCrate(i) => Some((ItemKind::ExternCrate, &i.attrs)),
        Item::ForeignMod(i) => Some((ItemKind::ForeignMod, &i.attrs)),
        Item::Impl(i) => Some((ItemKind::Impl, &i.attrs)),
        Item::Macro(i) => Some((ItemKind::Macro, &i.attrs)),
        Item::Mod(i) => Some((ItemKind::Mod, &i.attrs)),
        Item::Trait(i) => Some((ItemKind::Trait, &i.attrs)),
        Item::TraitAlias(i) => Some((ItemKind::TraitAlias, &i.attrs)),
        Item::Use(i) => Some((ItemKind::Use, &i.attrs)),
        _ => None,
    }
}

/// The lines on which the item's span (`syn::spanned::Spanned::span`)
/// starts and ends (`Span::start`, `Span::end`). The contract claims what
/// proc-macro2's source shows of them: lines count from 1, and a span ends no
/// earlier than it starts. Which lines they are is left unsaid.
#[verifier::external_body]
fn item_lines(item: &syn::Item) -> (r: (usize, usize))
    ensures
        1 <= r.0 <= r.1,
{
    let span = syn::spanned::Spanned::span(item);
    (span.start().line, span.end().line)
}

/// The attribute's path (`syn::Attribute::path`) as its identifier, when it
/// is a single identifier (`syn::Path::get_ident`).
#[verifier::external_body]
fn attr_ident(attr: &syn::Attribute) -> Option<String> {
    attr.path().get_ident().map(|i| i.to_string())
}

/// The attribute's arguments read as an expression
/// (`syn::Attribute::parse_args::<syn::Expr>`), when they read as one.
#[verifier::external_body]
fn attr_args_expr(attr: &syn::Attribute) -> Option<syn::Expr> {
    attr.parse_args::<syn::Expr>().ok()
}

/// The paths that `syn::Attribute::parse_nested_meta` hands to its callback,
/// in order, each as its identifier when it is one; the callback consumes
/// nothing more, so the walk stops at the first piece with a value.
#[verifier::external_body]
fn attr_nested_paths(attr: &syn::Attribute) -> Vec<Option<String>> {
    let mut seen = Vec::new();
    let _ = attr.parse_nested_meta(|meta| {
        seen.push(meta.path.get_ident().map(|i| i.to_string()));
        Ok(())
    });
    seen
}

/// The tokens of a `proc_macro2::TokenStream`, token for token: groups (by
/// `Group::stream`) with their inner tokens, identifiers and literals as
/// written (`to_string`), punctuation by `Punct::as_char`.
#[verifier::external_body]
fn token_models(ts: proc_macro2::TokenStream) -> Vec<TokenModel> {
    ts.into_iter().map(|t| match t {
        proc_macro2::TokenTree::Group(g) => TokenModel::Group(token_models(g.stream())),
        proc_macro2::TokenTree::Ident(i) => TokenModel::Ident(i.to_string()),
        proc_macro2::TokenTree::Punct(p) => TokenModel::Punct(p.as_char()),
        proc_macro2::TokenTree::Literal(l) => TokenModel::Literal(l.to_string()),
    }).collect()
}

/// The attribute's tokens (`quote::ToTokens::to_token_stream`).
#[verifier::external_body]
fn attr_tokens(attr: &syn::Attribute) -> Vec<TokenModel> {
    token_models(quote::ToTokens::to_token_stream(attr))
}

/// The shape of a `syn::Expr`, variant for variant: parentheses, paths (by
/// `syn::Path::get_ident`), binary operations and calls are kept with their
/// parts; every other kind becomes `CfgExpr::Other`.
#[verifier::external_body]
fn cfg_expr_of(e: &syn::Expr) -> CfgExpr {
    match e {
        syn::Expr::Paren(p) => CfgExpr::Paren(Box::new(cfg_expr_of(&p.expr))),
        syn::Expr::Path(p) => CfgExpr::Path(p.path.get_ident().map(|i| i.to_string())),
        syn::Expr::Binary(b) => {
            CfgExpr::Binary(Box::new(cfg_expr_of(&b.left)), Box::new(cfg_expr_of(&b.right)))
        },
        syn::Expr::Call(c) => {
            CfgExpr::Call(Box::new(cfg_expr_of(&c.func)), c.args.iter().map(cfg_expr_of).collect())
        },
        _ => CfgExpr::Other,
    }
}

/// What the test detection reads of a `syn::Expr`.
pub fn expr_model(e: &syn::Expr) -> CfgExpr {
    cfg_expr_of(e)
}

/// What the test detection reads of a `syn::Attribute`.
pub fn attr_model(attr: &syn::Attribute) -> AttrModel {
    let args = match attr_args_expr(attr) {
        Some(e) => Some(cfg_expr_of(&e)),
        None => None,
    };
    AttrModel {
        ident: attr_ident(attr),
        args,
        nested: attr_nested_paths(attr),
        tokens: attr_tokens(attr),
    }
}

/// The models of `attrs`: one for each attribute, in order (see
/// `attr_model`), so that every attribute of an item is read, not only the
/// first.
pub fn attrs_model(attrs: &[syn::Attribute]) -> (r: Vec<AttrModel>)
    ensures
        r@.len() == attrs@.len(),
{
    let mut models: Vec<AttrModel> = Vec::new();
    let mut i: usize = 0;
    while i < attrs.len()
        invariant
            i <= attrs@.len(),
            models@.len() == i,
        decreases attrs@.len() - i,
    {
        models.push(attr_model(&attrs[i]));
        i += 1;
    }
    models
}

/// What the test detection reads of a `syn::Item`: its kind, a model of each
/// of its attributes, its lines, and the models of the items in its body when
/// it is a module with a body. Inner modules are read `depth` levels deep.
/// An item of a kind without an attribute list (verbatim tokens) gets no
/// attributes.
pub fn item_model(item: &syn::Item, depth: usize) -> (r: ItemModel)
    ensures
        tree_reads_ok(r),
        depth == 0 ==> r.children@.len() == 0,
    decreases depth, 0nat,
{
    let (kind, attrs) = match definition_parts(item) {
        Some(parts) => parts,
        None => match module_parts(item) {
            Some(parts) => parts,
            None => (ItemKind::Other, [].as_slice()),
        },
    };
    let models = attrs_model(attrs);
    let (start_line, end_line) = item_lines(item);
    let is_module = match kind {
        ItemKind::Mod => true,
        _ => false,
    };
    let children = if depth > 0 && is_module {
        items_model(module_body_items(item), depth - 1)
    } else {
        Vec::new()
    };
    let r = ItemModel { kind, attrs: models, start_line, end_line, children };
    assert(item_reads_ok(r));
    r
}

/// The models of `items`, in order (see `item_model`).
fn items_model(items: &[syn::Item], depth: usize) -> (r: Vec<ItemModel>)
    ensures
        all_read_ok(r@),
        r@.len() == items@.len(),
    decreases depth, 1nat,
{
    let mut models: Vec<ItemModel> = Vec::new();
    let mut i: usize = 0;
    while i < items.len()
        invariant
            i <= items@.len(),
            models@.len() == i,
            all_read_ok(models@),
        decreases items@.len() - i,
    {
        let m = item_model(&items[i], depth);
        proof {
            lemma_all_read_ok_push(models@, m);
        }
        models.push(m);
        i += 1;
    }
    models
}

/// What the test detection reads of each top-level item of a parsed file,
/// in order, with inner modules read `depth` levels deep; every model reads
/// as a parsed item does (see `all_read_ok`).
pub fn file_model(file: &syn::File, depth: usize) -> (r: Vec<ItemModel>)
    ensures
        all_read_ok(r@),
{
    items_model(file_items(file).as_slice(), depth)
}

/// Why a source file could not be stripped.
#[derive(Debug)]
pub enum StripError {
    /// The text is not a Rust source file; the parser's message.
    Syntax(String),
}

/// Removes the test code from a Rust source file: the items that `#[test]`,
/// `#[cfg(..)]` mentioning `test`, or `#[cfg_attr(..)]` holding the token
/// `test` mark, at the top level or inside module bodies (read as deep as the
/// text is long, which no nesting exceeds), with the attribute lines just
/// above them.
///
/// The contract says when the parse succeeds, and that the result is the
/// text stripped of the test items among one model for each top-level item
/// the parser finds, each reading as a parsed item does. What the parser
/// finds in each item is left unsaid, as a `syn::Item` has no view to state
/// it over.
pub fn strip_test_file(content: &str) -> (r: Result<String, StripError>)
    ensures
        r is Err <==> syn_item_count(content@) is None,
        r matches Ok(s) ==> exists|items: Seq<ItemModel>|
            {
                &&& syn_item_count(content@) == Some(items.len())
                &&& all_read_ok(items)
                &&& s@ == stripped_text(content@, items)
            },
{
    match parse_file_items(content) {
        Ok(parsed) => {
            let items = items_model(parsed.as_slice(), content.len());
            let stripped = strip_items(content, items.as_slice());
            assert(syn_item_count(content@) == Some(items@.len()) && all_read_ok(items@)
                && stripped@ == stripped_text(content@, items@));
            Ok(stripped)
        },
        Err(e) => Err(StripError::Syntax(error_message(&e))),
    }
}

} // verus!
