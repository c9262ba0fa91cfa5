//! Documentation examples made from the text of a source file: the file is
//! parsed into its items, and the example is made from them.
use vstd::prelude::*;

use ra_ap_syntax::ast::Item as SyntaxItem;
use ra_ap_syntax::ast::{self, HasModuleItem, HasName};
use ra_ap_syntax::AstNode;

use crate::doc::{
    bodies_cut_at_boundaries, bodies_removable, doc_function_body, doc_parts, first_match,
    has_body_fn, has_name, item_part, join_lines, missing_names, names, shown_always, DocError,
    Item, ItemKind,
};

verus! {

#[verifier::external_type_specification]
#[verifier::external_body]
pub struct ExSyntaxItem(SyntaxItem);

/// The top-level items of the source text, as `parse_source` reports
/// them; nothing where the text does not parse.
pub uninterp spec fn source_items(source: Seq<char>) -> Option<Seq<SyntaxParts>>;

/// What the parser gives of a top-level item: its kind, its name where it
/// has one, its text, a function's body, and the token texts of an impl's
/// self type and of its trait.
pub struct SyntaxParts {
    pub kind: SyntaxItemKind,
    pub name: Option<String>,
    pub text: String,
    pub body: Option<String>,
    pub self_ty: Option<Vec<String>>,
    pub trait_ty: Option<Vec<String>>,
}

/// The kinds of `ra_ap_syntax::ast::Item`, one for each.
pub enum SyntaxItemKind {
    Const,
    Enum,
    ExternBlock,
    ExternCrate,
    Fn,
    Impl,
    MacroCall,
    MacroRules,
    MacroDef,
    Module,
    Static,
    Struct,
    Trait,
    TypeAlias,
    Union,
    Use,
}

/// The kind of a `ra_ap_syntax::ast::Item`, one variant for each of its
/// variants. Nothing is claimed of it.
#[verifier::external_body]
fn syntax_item_kind(item: &SyntaxItem) -> (r: SyntaxItemKind) {
    match item {
        SyntaxItem::Const(_) => SyntaxItemKind::Const, SyntaxItem::Enum(_) => SyntaxItemKind::Enum,
        SyntaxItem::ExternBlock(_) => SyntaxItemKind::ExternBlock, SyntaxItem::ExternCrate(_) => SyntaxItemKind::ExternCrate,
        SyntaxItem::Fn(_) => SyntaxItemKind::Fn, SyntaxItem::Impl(_) => SyntaxItemKind::Impl,
        SyntaxItem::MacroCall(_) => SyntaxItemKind::MacroCall, SyntaxItem::MacroRules(_) => SyntaxItemKind::MacroRules,
        SyntaxItem::MacroDef(_) => SyntaxItemKind::MacroDef, SyntaxItem::Module(_) => SyntaxItemKind::Module,
        SyntaxItem::Static(_) => SyntaxItemKind::Static, SyntaxItem::Struct(_) => SyntaxItemKind::Struct,
        SyntaxItem::Trait(_) => SyntaxItemKind::Trait, SyntaxItem::TypeAlias(_) => SyntaxItemKind::TypeAlias,
        SyntaxItem::Union(_) => SyntaxItemKind::Union, SyntaxItem::Use(_) => SyntaxItemKind::Use,
    }
}

/// The text of a syntax item, by its `Display`. Nothing is claimed of it.
#[verifier::external_body]
fn syntax_item_text(item: &SyntaxItem) -> (r: String) {
    item.to_string()
}

/// The name of a syntax item that has one, by `ast::AnyHasName` and
/// `HasName::name`. Nothing is claimed of it.
#[verifier::external_body]
fn syntax_item_name(item: &SyntaxItem) -> (r: Option<String>) {
    let named = ast::AnyHasName::cast(item.syntax().clone());
    named.and_then(|n| n.name()).map(|n| n.text().as_str().to_string())
}

/// The text of the body of a function item, by `ast::Fn::body`. Nothing is
/// claimed of it.
#[verifier::external_body]
fn syntax_fn_body(item: &SyntaxItem) -> (r: Option<String>) {
    ast::Fn::cast(item.syntax().clone()).and_then(|f| f.body()).map(|b| b.to_string())
}

/// The texts of the tokens of an impl's self type, by `ast::Impl::self_ty`,
/// in order. Nothing is claimed of it.
#[verifier::external_body]
fn syntax_impl_self_tokens(item: &SyntaxItem) -> (r: Option<Vec<String>>) {
    let ty = ast::Impl::cast(item.syntax().clone()).and_then(|i| i.self_ty());
    let tokens = ty.map(|t| t.syntax().descendants_with_tokens().filter_map(|e| e.into_token()));
    tokens.map(|ts| ts.map(|t| t.text().to_string()).collect())
}

/// The texts of the tokens of an impl's trait, by `ast::Impl::trait_`, in
/// order. Nothing is claimed of it.
#[verifier::external_body]
fn syntax_impl_trait_tokens(item: &SyntaxItem) -> (r: Option<Vec<String>>) {
    let ty = ast::Impl::cast(item.syntax().clone()).and_then(|i| i.trait_());
    let tokens = ty.map(|t| t.syntax().descendants_with_tokens().filter_map(|e| e.into_token()));
    tokens.map(|ts| ts.map(|t| t.text().to_string()).collect())
}

/// The kind of [`Item`] that an item of syntax kind `k` becomes, other than
/// a `use` item, a function or an impl.
pub open spec fn other_kind(k: SyntaxItemKind) -> ItemKind {
    match k {
        SyntaxItemKind::Const => ItemKind::Const,
        SyntaxItemKind::Enum => ItemKind::Enum,
        SyntaxItemKind::ExternBlock => ItemKind::ExternBlock,
        SyntaxItemKind::ExternCrate => ItemKind::ExternCrate,
        SyntaxItemKind::MacroCall => ItemKind::MacroCall,
        SyntaxItemKind::MacroRules => ItemKind::MacroRules,
        SyntaxItemKind::MacroDef => ItemKind::MacroDef,
        SyntaxItemKind::Module => ItemKind::Module,
        SyntaxItemKind::Static => ItemKind::Static,
        SyntaxItemKind::Struct => ItemKind::Struct,
        SyntaxItemKind::Trait => ItemKind::Trait,
        SyntaxItemKind::TypeAlias => ItemKind::TypeAlias,
        _ => ItemKind::Union,
    }
}

/// A syntax item reduced to what an example needs of it: every part that
/// the example reads is kept.
pub open spec fn item_of_parts(p: SyntaxParts) -> Item {
    match p.kind {
        SyntaxItemKind::Use => Item::Use { text: p.text },
        SyntaxItemKind::Fn => Item::Fn { name: p.name, text: p.text, body: p.body },
        SyntaxItemKind::Impl => Item::Impl { text: p.text, self_ty: p.self_ty, trait_ty: p.trait_ty },
        k => Item::Other { kind: other_kind(k), name: p.name, text: p.text },
    }
}

/// The items of a source text, reduced: nothing where the text does not
/// parse.
pub open spec fn source_doc_items(source: Seq<char>) -> Option<Seq<Item>> {
    match source_items(source) {
        None => None,
        Some(ps) => Some(ps.map_values(|p: SyntaxParts| item_of_parts(p))),
    }
}

/// A syntax item, reduced to what an example needs of it.
fn item_of_syntax(p: SyntaxParts) -> (r: Item)
    ensures
        r == item_of_parts(p),
{
    let text = p.text;
    let kind = match p.kind {
        SyntaxItemKind::Use => return Item::Use { text },
        SyntaxItemKind::Fn => return Item::Fn { name: p.name, text, body: p.body },
        SyntaxItemKind::Impl => {
            return Item::Impl { text, self_ty: p.self_ty, trait_ty: p.trait_ty };
        },
        SyntaxItemKind::Const => ItemKind::Const,
        SyntaxItemKind::Enum => ItemKind::Enum,
        SyntaxItemKind::ExternBlock => ItemKind::ExternBlock,
        SyntaxItemKind::ExternCrate => ItemKind::ExternCrate,
        SyntaxItemKind::MacroCall => ItemKind::MacroCall,
        SyntaxItemKind::MacroRules => ItemKind::MacroRules,
        SyntaxItemKind::MacroDef => ItemKind::MacroDef,
        SyntaxItemKind::Module => ItemKind::Module,
        SyntaxItemKind::Static => ItemKind::Static,
        SyntaxItemKind::Struct => ItemKind::Struct,
        SyntaxItemKind::Trait => ItemKind::Trait,
        SyntaxItemKind::TypeAlias => ItemKind::TypeAlias,
        SyntaxItemKind::Union => ItemKind::Union,
    };
    Item::Other { kind, name: p.name, text }
}

/// Parses a source file with `ra_ap_syntax::SourceFile::parse` and reports,
/// for each of its top-level items, what the parser gives of it, one field
/// for each accessor; nothing where the parse reports errors.
///
/// The contract names the result: it depends on the text alone. What the
/// parser makes of the text is not stated.
#[verifier::external_body]
pub fn parse_source(source: &str) -> (r: Option<Vec<SyntaxParts>>)
    ensures
        match r {
            None => source_items(source@) is None,
            Some(v) => source_items(source@) == Some(v@),
        },
{
    let parse = ra_ap_syntax::SourceFile::parse(source);
    if !parse.errors().is_empty() {
        return None;
    }
    Some(parse.tree().items().map(|item| SyntaxParts {
        kind: syntax_item_kind(&item),
        name: syntax_item_name(&item),
        text: syntax_item_text(&item),
        body: syntax_fn_body(&item),
        self_ty: syntax_impl_self_tokens(&item),
        trait_ty: syntax_impl_trait_tokens(&item),
    }).collect())
}

/// The items of a source text, each reduced to an [`Item`]; nothing where
/// the text does not parse.
pub fn items_of_source(source: &str) -> (r: Option<Vec<Item>>)
    ensures
        match r {
            None => source_items(source@) is None,
            Some(v) => source_doc_items(source@) == Some(v@),
        },
{
    let mut parts = match parse_source(source) {
        None => return None,
        Some(parts) => parts,
    };
    let ghost all = parts@;
    let n = parts.len();
    let mut items: Vec<Item> = Vec::new();
    let mut k: usize = 0;
    while parts.len() > 0
        invariant
            source_items(source@) == Some(all),
            all.len() == n,
            k + parts@.len() == all.len(),
            parts@ == all.skip(k as int),
            items@ == all.take(k as int).map_values(|p: SyntaxParts| item_of_parts(p)),
        decreases parts@.len(),
    {
        let p = parts.remove(0);
        assert(p == all[k as int]);
        items.push(item_of_syntax(p));
        assert(all.skip(k + 1) =~= all.skip(k as int).drop_first());
        assert(all.take(k + 1).map_values(|p: SyntaxParts| item_of_parts(p)) =~= all.take(
            k as int,
        ).map_values(|p: SyntaxParts| item_of_parts(p)).push(item_of_parts(all[k as int])));
        k = k + 1;
    }
    assert(all.take(k as int) =~= all);
    Some(items)
}

/// Reducing a syntax item keeps what the parser gave of it: a `use` item,
/// a function and an impl stay what they are, with their parts; any other
/// item keeps its name and its text, under a kind of its own, and is shown
/// whatever the dependencies exactly where it is an extern block, an extern
/// crate or a macro call.
pub proof fn lemma_reduction_keeps_parts(p: SyntaxParts, q: SyntaxParts)
    ensures
        item_of_parts(p) is Use <==> p.kind is Use,
        item_of_parts(p) is Fn <==> p.kind is Fn,
        item_of_parts(p) is Impl <==> p.kind is Impl,
        item_of_parts(p) matches Item::Use { text } ==> text == p.text,
        item_of_parts(p) matches Item::Fn { name, text, body } ==> name == p.name && text == p.text
            && body == p.body,
        item_of_parts(p) matches Item::Impl { text, self_ty, trait_ty } ==> text == p.text
            && self_ty == p.self_ty && trait_ty == p.trait_ty,
        item_of_parts(p) matches Item::Other { name, text, .. } ==> name == p.name && text
            == p.text,
        item_of_parts(p) is Other && item_of_parts(q) is Other ==> (item_of_parts(p)->kind
            == item_of_parts(q)->kind <==> p.kind == q.kind),
        item_of_parts(p) matches Item::Other { kind, .. } ==> (shown_always(kind) <==> (p.kind
            is ExternBlock || p.kind is ExternCrate || p.kind is MacroCall)),
{
}

/// A whole-file example shows every named item of the source: each
/// top-level item that is not a `use` item, a function or an impl, and that
/// has a name, contributes its text.
pub proof fn lemma_whole_file_shows_named_items(source: Seq<char>, i: int)
    requires
        source_items(source) is Some,
        0 <= i < source_items(source).unwrap().len(),
        !(source_items(source).unwrap()[i].kind is Use || source_items(source).unwrap()[i].kind is Fn
            || source_items(source).unwrap()[i].kind is Impl),
        source_items(source).unwrap()[i].name is Some,
    ensures
        source_doc_items(source) is Some,
        item_part(source_doc_items(source).unwrap()[i], "main"@, None) == Some(
            source_items(source).unwrap()[i].text@ + "\n"@,
        ),
{
    let ps = source_items(source).unwrap();
    assert(source_doc_items(source).unwrap()[i] == item_of_parts(ps[i]));
}

/// An impl is shown where its self type names a dependency, whether or not
/// it implements a trait.
pub proof fn lemma_impl_for_dependency_shown(
    p: SyntaxParts,
    body_fn: Seq<char>,
    dependencies: &Vec<String>,
)
    requires
        p.kind is Impl,
        p.self_ty is Some,
        first_match(p.self_ty.unwrap()@, Some(dependencies)) is Some,
    ensures
        item_part(item_of_parts(p), body_fn, Some(dependencies)) == Some(p.text@ + "\n"@),
{
}

/// Why a source file gives no example.
#[derive(Debug, Clone, PartialEq, Eq)]
pub enum SourceDocError {
    /// The source does not parse.
    Syntax,
    /// Removing the indentation of the body would cut a line inside a
    /// character.
    IndentCutsCharacter,
    /// The example cannot be made from the file's items.
    Doc(DocError),
}

/// What making the example of the function `body_fn` from the items gives,
/// as [`doc_function_body`] makes it.
pub open spec fn example_of_items(
    items: Seq<Item>,
    body_fn: Seq<char>,
    dependencies: Option<&Vec<String>>,
    r: Result<String, SourceDocError>,
) -> bool {
    if !bodies_cut_at_boundaries(items, body_fn) {
        r == Err::<String, SourceDocError>(SourceDocError::IndentCutsCharacter)
    } else if exists|n: Seq<char>| #[trigger] missing_names(items, body_fn, dependencies).contains(n)
        && n.len() > 0 {
        r matches Err(SourceDocError::Doc(DocError::MissingDependencies(m))) && names(m@)
            == missing_names(items, body_fn, dependencies)
    } else if has_body_fn(items, body_fn) {
        r matches Ok(s) && s@ == join_lines(doc_parts(items, body_fn, dependencies))
    } else {
        r matches Err(SourceDocError::Doc(DocError::NotFound(f))) && f@ == body_fn
    }
}

/// Make the example whose body is the function `body_fn` out of the source
/// text of a file, as `doc_function_body` makes it of the file's items. It
/// is refused where the text does not parse, and where removing the
/// indentation of the function's body would cut a line inside a character.
pub fn example_of_source(source: &str, body_fn: &str, dependencies: Option<&Vec<String>>) -> (r:
    Result<String, SourceDocError>)
    ensures
        match source_doc_items(source@) {
            None => r == Err::<String, SourceDocError>(SourceDocError::Syntax),
            Some(items) => example_of_items(items, body_fn@, dependencies, r),
        },
{
    let items = match items_of_source(source) {
        None => return Err(SourceDocError::Syntax),
        Some(items) => items,
    };
    if !bodies_removable(&items, body_fn) {
        return Err(SourceDocError::IndentCutsCharacter);
    }
    match doc_function_body(&items, body_fn, dependencies) {
        Ok(s) => Ok(s),
        Err(e) => Err(SourceDocError::Doc(e)),
    }
}

/// The example made of the body of the function `body_fn` of the source
/// text and the items named in `dependencies`: refused before the text is
/// read where the function is itself named as a dependency.
pub fn function_body_of_source(source: &str, body_fn: &str, dependencies: &Vec<String>) -> (r:
    Result<String, SourceDocError>)
    ensures
        names(dependencies@).contains(body_fn@) ==> r == Err::<String, SourceDocError>(
            SourceDocError::Doc(DocError::BodyInDependencies),
        ),
        !names(dependencies@).contains(body_fn@) ==> match source_doc_items(source@) {
            None => r == Err::<String, SourceDocError>(SourceDocError::Syntax),
            Some(items) => example_of_items(items, body_fn@, Some(dependencies), r),
        },
{
    if has_name(dependencies, body_fn) {
        return Err(SourceDocError::Doc(DocError::BodyInDependencies));
    }
    example_of_source(source, body_fn, Some(dependencies))
}

/// The example made of the whole `main` function of the source text, with
/// every other item.
pub fn file_of_source(source: &str) -> (r: Result<String, SourceDocError>)
    ensures
        match source_doc_items(source@) {
            None => r == Err::<String, SourceDocError>(SourceDocError::Syntax),
            Some(items) => example_of_items(items, "main"@, None, r),
        },
{
    example_of_source(source, "main", None)
}

} // verus!
