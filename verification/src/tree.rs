//! The tree the transform works on: an ordered sequence of items, where a
//! module declaration is the one kind of item the transform inspects, and
//! every other item is opaque payload, carried through unchanged.
//!
//! The executable types hold byte strings and vectors; each has a
//! mathematical view built from `Seq`, and the whole transform is specified
//! over those views.

use vstd::prelude::*;

verus! {

/// Relies on `syn::Item`, the parsed form of one item of a source file.
/// The crate carries such values through unchanged and never looks inside
/// them.
#[verifier::external_type_specification]
#[verifier::external_body]
pub struct ExSynItem(syn::Item);

/// Relies on `syn::ItemMod`, the parsed form of one module declaration.
/// The crate keeps, for each module it relocates, the declaration as it was
/// parsed (attributes, visibility, identifier), so that the emitted bodiless
/// declaration can be printed with its surroundings intact; the crate never
/// looks inside the value.
#[verifier::external_type_specification]
#[verifier::external_body]
pub struct ExSynItemMod(syn::ItemMod);

/// The body of a module declaration.
#[derive(Debug, PartialEq, Eq)]
pub enum ModBody {
    /// The child items stand inline, in the same file.
    Inline(Vec<TreeItem>),
    /// No body here: the content lives in another file, found by naming
    /// convention or by an explicit location annotation.
    External,
}

/// One module declaration.
#[derive(Debug, PartialEq, Eq)]
pub struct ModItem {
    /// The module's identifier, as bytes.
    pub name: Vec<u8>,
    /// The location annotation attached to the declaration: a path,
    /// relative to the directory of the file the declaration stands in,
    /// naming the file that holds the module's content.
    pub path_attr: Option<Vec<u8>>,
    /// The declaration as parsed, body aside, when the tree came from a
    /// parser; printed back in place of the declaration so that attributes
    /// and visibility survive the transform.
    pub decl: Option<syn::ItemMod>,
    /// The module's body.
    pub body: ModBody,
}

/// One item of a file: a module declaration, or any other item, which the
/// transform carries through unchanged.
#[derive(Debug, PartialEq, Eq)]
pub enum TreeItem {
    Module(ModItem),
    Other(syn::Item),
}

/// The view of a module body.
#[verifier::ext_equal]
pub enum ModBodyView {
    Inline(Seq<ItemView>),
    External,
}

/// The view of a module declaration.
#[verifier::ext_equal]
pub struct ModItemView {
    pub name: Seq<u8>,
    pub path_attr: Option<Seq<u8>>,
    pub decl: Option<syn::ItemMod>,
    pub body: ModBodyView,
}

/// The view of one item.
#[verifier::ext_equal]
pub enum ItemView {
    Module(ModItemView),
    Other(syn::Item),
}

/// The view of an optional byte string.
pub open spec fn view_opt_bytes(o: Option<Vec<u8>>) -> Option<Seq<u8>> {
    match o {
        Option::Some(v) => Some(v@),
        Option::None => None,
    }
}

/// The view of one item: names and paths become byte sequences, child
/// vectors become sequences, opaque payload is kept as it is.
pub open spec fn view_item(item: TreeItem) -> ItemView
    decreases item,
{
    match item {
        TreeItem::Module(m) => ItemView::Module(
            ModItemView {
                name: m.name@,
                path_attr: view_opt_bytes(m.path_attr),
                decl: m.decl,
                body: match m.body {
                    ModBody::Inline(children) => ModBodyView::Inline(view_items(children@)),
                    ModBody::External => ModBodyView::External,
                },
            },
        ),
        TreeItem::Other(payload) => ItemView::Other(payload),
    }
}

/// The view of a sequence of items.
pub open spec fn view_items(items: Seq<TreeItem>) -> Seq<ItemView>
    decreases items,
{
    if items.len() == 0 {
        Seq::empty()
    } else {
        seq![view_item(items[0])] + view_items(items.drop_first())
    }
}

/// The input shape the transform supports: a module that is already
/// bodiless may stand only among the top-level items, because the content
/// of a bodiless module below the top level is not visible to the
/// transform.  `top` says whether the items are the top-level ones.
pub open spec fn spec_item_ok(item: ItemView, top: bool) -> bool
    decreases item,
{
    match item {
        ItemView::Module(m) => match m.body {
            ModBodyView::Inline(children) => spec_items_ok(children, false),
            ModBodyView::External => top,
        },
        ItemView::Other(_) => true,
    }
}

/// All items of the sequence are of the supported shape.
pub open spec fn spec_items_ok(items: Seq<ItemView>, top: bool) -> bool
    decreases items,
{
    if items.len() == 0 {
        true
    } else {
        spec_item_ok(items[0], top) && spec_items_ok(items.drop_first(), top)
    }
}

/// The item, if it is a module declaration, is bodiless.
pub open spec fn spec_item_external(item: ItemView) -> bool {
    match item {
        ItemView::Module(m) => m.body is External,
        ItemView::Other(_) => true,
    }
}

/// Every module declaration in the sequence is bodiless.
pub open spec fn spec_items_external(items: Seq<ItemView>) -> bool {
    forall|i: int| 0 <= i < items.len() ==> spec_item_external(#[trigger] items[i])
}

/// The item, if it is a module declaration, carries a location annotation.
pub open spec fn spec_item_annotated(item: ItemView) -> bool {
    match item {
        ItemView::Module(m) => m.path_attr is Some,
        ItemView::Other(_) => true,
    }
}

/// Every module declaration in the sequence carries a location annotation.
pub open spec fn spec_items_annotated(items: Seq<ItemView>) -> bool {
    forall|i: int| 0 <= i < items.len() ==> spec_item_annotated(#[trigger] items[i])
}

/// The view of a sequence of items, item by item.
pub proof fn lemma_view_items_pointwise(items: Seq<TreeItem>)
    ensures
        view_items(items).len() == items.len(),
        forall|i: int| 0 <= i < items.len() ==> view_items(items)[i] == view_item(#[trigger] items[i]),
    decreases items,
{
    if items.len() > 0 {
        lemma_view_items_pointwise(items.drop_first());
        assert forall|i: int| 0 <= i < items.len() implies view_items(items)[i] == view_item(
            #[trigger] items[i],
        ) by {
            if i > 0 {
                assert(items.drop_first()[i - 1] == items[i]);
                assert(view_items(items)[i] == view_items(items.drop_first())[i - 1]);
            }
        }
    }
}

/// Whether a sequence of items is of the supported shape can be read item
/// by item.
pub proof fn lemma_items_ok_pointwise(items: Seq<ItemView>, top: bool)
    ensures
        spec_items_ok(items, top) <==> (forall|i: int|
            0 <= i < items.len() ==> spec_item_ok(#[trigger] items[i], top)),
    decreases items,
{
    if items.len() > 0 {
        lemma_items_ok_pointwise(items.drop_first(), top);
        if spec_item_ok(items[0], top) && (forall|i: int|
            0 <= i < items.len() ==> spec_item_ok(#[trigger] items[i], top)) {
            assert forall|i: int| 0 <= i < items.drop_first().len() implies spec_item_ok(
                #[trigger] items.drop_first()[i],
                top,
            ) by {
                assert(items.drop_first()[i] == items[i + 1]);
            }
        }
        if spec_items_ok(items, top) {
            assert forall|i: int| 0 <= i < items.len() implies spec_item_ok(
                #[trigger] items[i],
                top,
            ) by {
                if i > 0 {
                    assert(items[i] == items.drop_first()[i - 1]);
                }
            }
        }
    }
}

} // verus!
