//! The tree folder: a depth-first walk of the item tree that relocates
//! every inline module into a file of its own.
//!
//! The walk carries a directory-placement context, turns each inline module
//! into a bodiless declaration (annotated with an explicit location where
//! the default discovery rule would fail), and records, in order, the
//! filesystem work the relocation asks for: which directories must exist
//! and which files are to be written with which content.  The caller
//! performs that plan; a directory may be asked for more than once (the
//! creation is idempotent), while every file write is the creation of a
//! new file, and a file that already exists must make the run fail rather
//! than be overwritten.

use vstd::prelude::*;

use crate::names::{
    fs_name_of,
    is_name_reserved,
    spec_fs_name,
    spec_is_reserved,
    copy_bytes,
};
use crate::tree::{
    ItemView,
    view_opt_bytes,
    ModBody,
    ModBodyView,
    ModItem,
    ModItemView,
    TreeItem,
    lemma_items_ok_pointwise,
    lemma_view_items_pointwise,
    spec_item_ok,
    spec_items_ok,
    view_item,
    view_items,
};

verus! {

/// ASCII `/`.
pub const SLASH: u8 = 47;

/// ASCII `.`.
pub const DOT: u8 = 46;

/// ASCII `b`.
pub const LC_B: u8 = 98;

/// ASCII `i`.
pub const LC_I: u8 = 105;

/// ASCII `l`.
pub const LC_L: u8 = 108;

/// ASCII `r`.
pub const LC_R: u8 = 114;

/// ASCII `s`.
pub const LC_S: u8 = 115;

/// What can go wrong while planning the relocation.
#[derive(Clone, Copy, Debug, PartialEq, Eq, Structural)]
pub enum FormError {
    /// A module below the top level is already bodiless: its content is in
    /// some other file and not visible here, so it cannot be relocated.
    NestedExternalModule,
}

/// The directory-placement context threaded through the walk: the
/// directory (relative to the output root) that files of the current level
/// go to, the on-disk name of the enclosing module if there is one, and
/// whether every declaration from here down needs an explicit location
/// annotation.
pub struct DirCtx {
    pub directory: Vec<u8>,
    pub enclosing_fs_name: Option<Vec<u8>>,
    pub path_attr_required: bool,
}

/// The view of a directory-placement context.
#[verifier::ext_equal]
pub struct DirCtxView {
    pub directory: Seq<u8>,
    pub enclosing_fs_name: Option<Seq<u8>>,
    pub path_attr_required: bool,
}

impl View for DirCtx {
    type V = DirCtxView;

    open spec fn view(&self) -> DirCtxView {
        DirCtxView {
            directory: self.directory@,
            enclosing_fs_name: view_opt_bytes(self.enclosing_fs_name),
            path_attr_required: self.path_attr_required,
        }
    }
}

/// One step of the filesystem plan.  Paths are relative to the output root
/// directory; the empty path names that root itself.
#[derive(Debug, PartialEq, Eq)]
pub enum PlanOp {
    /// Make sure the directory exists, creating it and its parents as
    /// needed; nothing happens when it is already there.
    EnsureDir(Vec<u8>),
    /// Write the items, printed as a source file, to a new file at the
    /// path; a file already at the path is an error, never overwritten.
    EmitFile(Vec<u8>, Vec<TreeItem>),
}

/// The view of one plan step.
#[verifier::ext_equal]
pub enum PlanOpView {
    EnsureDir(Seq<u8>),
    EmitFile(Seq<u8>, Seq<ItemView>),
}

/// The view of one plan step.
pub open spec fn view_plan_op(op: PlanOp) -> PlanOpView {
    match op {
        PlanOp::EnsureDir(dir) => PlanOpView::EnsureDir(dir@),
        PlanOp::EmitFile(path, items) => PlanOpView::EmitFile(path@, view_items(items@)),
    }
}

/// The view of a plan.
pub open spec fn view_plan(ops: Seq<PlanOp>) -> Seq<PlanOpView> {
    ops.map_values(|op: PlanOp| view_plan_op(op))
}

/// The `.rs` file suffix.
pub open spec fn spec_dot_rs() -> Seq<u8> {
    seq![DOT, LC_R, LC_S]
}

/// The file name a module's own content goes to: its on-disk name plus the
/// file suffix.
pub open spec fn spec_file_name(fs_name: Seq<u8>) -> Seq<u8> {
    fs_name + spec_dot_rs()
}

/// A path inside a directory; the empty directory stands for the output
/// root, so the name alone is the path.
pub open spec fn spec_join(dir: Seq<u8>, name: Seq<u8>) -> Seq<u8> {
    if dir.len() == 0 {
        name
    } else {
        dir + seq![SLASH] + name
    }
}

/// The value of a location annotation: where the compiler should find the
/// relocated module's file, relative to the directory of the file the
/// declaration stands in.  With an enclosing module the file sits in that
/// module's subdirectory; at the top level it sits beside the declaring
/// file.
pub open spec fn spec_attr_path(enclosing: Option<Seq<u8>>, fs_name: Seq<u8>) -> Seq<u8> {
    match enclosing {
        Some(e) => e + seq![SLASH] + spec_file_name(fs_name),
        None => spec_file_name(fs_name),
    }
}

/// The context a relocated module's children are walked under: files go to
/// the module's own subdirectory, the module's on-disk name becomes the
/// enclosing name, and the need for location annotations is inherited.
pub open spec fn spec_sub_ctx(ctx: DirCtxView, fs_name: Seq<u8>, needs_attr: bool) -> DirCtxView {
    DirCtxView {
        directory: spec_join(ctx.directory, fs_name),
        enclosing_fs_name: Some(fs_name),
        path_attr_required: needs_attr,
    }
}

/// Whether a relocated module must carry an explicit location annotation:
/// when an ancestor already does (the inherited flag), or when its own
/// on-disk name diverges from its identifier (a reserved name).
pub open spec fn spec_needs_attr(ctx: DirCtxView, name: Seq<u8>) -> bool {
    ctx.path_attr_required || spec_is_reserved(name)
}

/// What one item of the tree becomes in the file that declares it: an
/// inline module becomes a bodiless declaration, annotated with its
/// location when required; everything else is kept as it is.
pub open spec fn spec_fold_item(item: ItemView, ctx: DirCtxView) -> ItemView {
    match item {
        ItemView::Module(m) => match m.body {
            ModBodyView::Inline(_) => {
                let fs_name = spec_fs_name(m.name);
                let path_attr = if spec_needs_attr(ctx, m.name) {
                    Some(spec_attr_path(ctx.enclosing_fs_name, fs_name))
                } else {
                    m.path_attr
                };
                ItemView::Module(
                    ModItemView {
                        name: m.name,
                        path_attr: path_attr,
                        decl: m.decl,
                        body: ModBodyView::External,
                    },
                )
            },
            ModBodyView::External => item,
        },
        ItemView::Other(_) => item,
    }
}

/// What a sequence of items becomes in the file that declares it, item by
/// item in document order.
pub open spec fn spec_fold_items(items: Seq<ItemView>, ctx: DirCtxView) -> Seq<ItemView>
    decreases items.len(),
{
    if items.len() == 0 {
        Seq::empty()
    } else {
        seq![spec_fold_item(items[0], ctx)] + spec_fold_items(items.drop_first(), ctx)
    }
}

/// The filesystem work one item asks for.  Only an inline module asks for
/// any: its level's directory must exist, then come its own descendants'
/// steps (so that files are emitted leaf first), then the write of its own
/// file, holding its folded children.
pub open spec fn spec_plan_item(item: ItemView, ctx: DirCtxView) -> Seq<PlanOpView>
    decreases item,
{
    match item {
        ItemView::Module(m) => match m.body {
            ModBodyView::Inline(children) => {
                let fs_name = spec_fs_name(m.name);
                let sub = spec_sub_ctx(ctx, fs_name, spec_needs_attr(ctx, m.name));
                seq![PlanOpView::EnsureDir(ctx.directory)] + spec_plan_items(children, sub)
                    + seq![
                    PlanOpView::EmitFile(
                        spec_join(ctx.directory, spec_file_name(fs_name)),
                        spec_fold_items(children, sub),
                    ),
                ]
            },
            ModBodyView::External => Seq::empty(),
        },
        ItemView::Other(_) => Seq::empty(),
    }
}

/// The filesystem work a sequence of sibling items asks for, in document
/// order.
pub open spec fn spec_plan_items(items: Seq<ItemView>, ctx: DirCtxView) -> Seq<PlanOpView>
    decreases items,
{
    if items.len() == 0 {
        Seq::empty()
    } else {
        spec_plan_item(items[0], ctx) + spec_plan_items(items.drop_first(), ctx)
    }
}

/// The context the walk starts under: the output root itself, no enclosing
/// module, no inherited need for annotations.
pub open spec fn spec_root_ctx() -> DirCtxView {
    DirCtxView { directory: Seq::empty(), enclosing_fs_name: None, path_attr_required: false }
}

/// The file name the root tree goes to.
pub open spec fn spec_lib_rs() -> Seq<u8> {
    seq![LC_L, LC_I, LC_B, DOT, LC_R, LC_S]
}

/// The whole plan for an input tree: make sure the output root exists, do
/// the work of every relocation in document order, then write the root
/// file.  The root file goes through the same create-new write as every
/// other emitted file, so a run against a directory holding an earlier
/// run's output fails rather than overwrite anything.
pub open spec fn spec_plan(items: Seq<ItemView>) -> Seq<PlanOpView> {
    seq![PlanOpView::EnsureDir(Seq::empty())] + spec_plan_items(items, spec_root_ctx()) + seq![
        PlanOpView::EmitFile(spec_lib_rs(), spec_fold_items(items, spec_root_ctx())),
    ]
}

/// Appends one byte string to another.
pub fn append_bytes(out: &mut Vec<u8>, v: &Vec<u8>)
    ensures
        final(out)@ == old(out)@ + v@,
{
    proof {
        assert(out@ =~= old(out)@ + v@.take(0));
    }
    let mut i: usize = 0;
    while i < v.len()
        invariant
            0 <= i <= v.len(),
            out@ == old(out)@ + v@.take(i as int),
        decreases v.len() - i,
    {
        out.push(v[i]);
        proof {
            assert(out@ =~= old(out)@ + v@.take(i + 1 as int));
        }
        i = i + 1;
    }
    proof {
        assert(old(out)@ + v@.take(v@.len() as int) =~= old(out)@ + v@);
    }
}

/// The file name a module's own content goes to (see `spec_file_name`).
pub fn file_name_of(fs_name: &Vec<u8>) -> (r: Vec<u8>)
    ensures
        r@ == spec_file_name(fs_name@),
{
    let mut out = copy_bytes(fs_name);
    out.push(DOT);
    out.push(LC_R);
    out.push(LC_S);
    proof {
        assert(out@ =~= spec_file_name(fs_name@));
    }
    out
}

/// A path inside a directory (see `spec_join`).
pub fn join_path(dir: &Vec<u8>, name: &Vec<u8>) -> (r: Vec<u8>)
    ensures
        r@ == spec_join(dir@, name@),
{
    if dir.len() == 0 {
        copy_bytes(name)
    } else {
        let mut out = copy_bytes(dir);
        out.push(SLASH);
        append_bytes(&mut out, name);
        proof {
            assert(out@ =~= spec_join(dir@, name@));
        }
        out
    }
}

/// The value of a location annotation (see `spec_attr_path`).
pub fn attr_path(enclosing: &Option<Vec<u8>>, fs_name: &Vec<u8>) -> (r: Vec<u8>)
    ensures
        r@ == spec_attr_path(view_opt_bytes(*enclosing), fs_name@),
{
    match enclosing {
        Option::Some(e) => {
            let mut out = copy_bytes(e);
            out.push(SLASH);
            let file = file_name_of(fs_name);
            append_bytes(&mut out, &file);
            proof {
                assert(out@ =~= spec_attr_path(view_opt_bytes(*enclosing), fs_name@));
            }
            out
        },
        Option::None => file_name_of(fs_name),
    }
}

impl DirCtx {
    /// The context for the children of a relocated module (see
    /// `spec_sub_ctx`).
    pub fn sub_mod(&self, path: Vec<u8>, has_path_attr: bool) -> (c: DirCtx)
        ensures
            c@ == spec_sub_ctx(self@, path@, has_path_attr),
    {
        let directory = join_path(&self.directory, &path);
        DirCtx { directory, enclosing_fs_name: Some(path), path_attr_required: has_path_attr }
    }
}

/// What the extractor decided for one item.
pub enum Extracted {
    /// Not a relocatable module: the item stays as it is.
    Keep(TreeItem),
    /// An inline module to be relocated.
    Reloc(Relocation),
}

/// An inline module taken out of the tree: the bodiless declaration that
/// replaces it in the declaring file, its on-disk name, whether it and all
/// its descendants need explicit location annotations, and the child items
/// that become the module's own file.
pub struct Relocation {
    pub mod_decl: TreeItem,
    pub mod_fs_name: Vec<u8>,
    pub mod_has_path_attr: bool,
    pub items: Vec<TreeItem>,
}

/// The one input the extractor refuses: a module that is already bodiless
/// while some module encloses it, so that its content is in another file
/// and not visible to the transform.
pub open spec fn spec_extract_refused(item: ItemView, ctx: DirCtxView) -> bool {
    &&& item matches ItemView::Module(m)
    &&& m.body is External
    &&& ctx.enclosing_fs_name is Some
}

/// The item is a module whose body stands inline.
pub open spec fn spec_is_inline_module(item: ItemView) -> bool {
    item matches ItemView::Module(m) && m.body is Inline
}

/// Decides whether one item is a relocatable inline module, and if so
/// computes its on-disk name, its need for a location annotation, the
/// bodiless declaration that replaces it, and its extracted children.
pub fn extract_mod(item: TreeItem, ctx: &DirCtx) -> (r: Result<Extracted, FormError>)
    ensures
        r is Err <==> spec_extract_refused(view_item(item), ctx@),
        r is Err ==> r == Err::<Extracted, FormError>(FormError::NestedExternalModule),
        view_item(item) matches ItemView::Module(m) ==> (m.body matches ModBodyView::Inline(ch)
            ==> (r matches Ok(e) && e matches Extracted::Reloc(rel) && view_item(rel.mod_decl)
            == spec_fold_item(view_item(item), ctx@) && rel.mod_fs_name@ == spec_fs_name(m.name)
            && rel.mod_has_path_attr == spec_needs_attr(ctx@, m.name) && view_items(rel.items@)
            == ch)),
        (!spec_is_inline_module(view_item(item)) && !(r is Err)) ==> r == Ok::<
            Extracted,
            FormError,
        >(Extracted::Keep(item)),
        r matches Ok(e) ==> (e matches Extracted::Reloc(rel) ==> (item matches TreeItem::Module(m)
            && m.body matches ModBody::Inline(children) && rel.items == children)),
{
    match item {
        TreeItem::Other(payload) => Ok(Extracted::Keep(TreeItem::Other(payload))),
        TreeItem::Module(m) => {
            let ModItem { name, path_attr, decl, body } = m;
            match body {
                ModBody::External => {
                    if ctx.enclosing_fs_name.is_some() {
                        Err(FormError::NestedExternalModule)
                    } else {
                        Ok(
                            Extracted::Keep(
                                TreeItem::Module(
                                    ModItem { name, path_attr, decl, body: ModBody::External },
                                ),
                            ),
                        )
                    }
                },
                ModBody::Inline(children) => {
                    let reserved = is_name_reserved(&name);
                    let has_attr = ctx.path_attr_required || reserved;
                    let fs_name = fs_name_of(&name);
                    let new_attr = if has_attr {
                        Some(attr_path(&ctx.enclosing_fs_name, &fs_name))
                    } else {
                        path_attr
                    };
                    let mod_decl = TreeItem::Module(
                        ModItem { name, path_attr: new_attr, decl, body: ModBody::External },
                    );
                    Ok(
                        Extracted::Reloc(
                            Relocation {
                                mod_decl,
                                mod_fs_name: fs_name,
                                mod_has_path_attr: has_attr,
                                items: children,
                            },
                        ),
                    )
                },
            }
        },
    }
}

/// A prefix of a prefix is a prefix.
pub proof fn lemma_prefix_trans<T>(a: Seq<T>, b: Seq<T>, c: Seq<T>)
    requires
        a.is_prefix_of(b),
        b.is_prefix_of(c),
    ensures
        a.is_prefix_of(c),
{
    assert(a =~= c.subrange(0, a.len() as int));
}

/// Appending to a sequence keeps its prefixes.
pub proof fn lemma_prefix_push<T>(a: Seq<T>, b: Seq<T>, x: T)
    requires
        a.is_prefix_of(b),
    ensures
        a.is_prefix_of(b.push(x)),
{
    assert(a =~= b.push(x).subrange(0, a.len() as int));
}

/// Appending one step to a plan appends its view.
pub proof fn lemma_view_plan_push(ops: Seq<PlanOp>, op: PlanOp)
    ensures
        view_plan(ops.push(op)) == view_plan(ops).push(view_plan_op(op)),
{
    assert(view_plan(ops.push(op)) =~= view_plan(ops).push(view_plan_op(op)));
}

/// Appending one item to a sequence appends its view.
pub proof fn lemma_view_items_push(items: Seq<TreeItem>, x: TreeItem)
    ensures
        view_items(items.push(x)) == view_items(items).push(view_item(x)),
{
    lemma_view_items_pointwise(items.push(x));
    lemma_view_items_pointwise(items);
    let l = view_items(items.push(x));
    let r = view_items(items).push(view_item(x));
    assert forall|i: int| 0 <= i < l.len() implies l[i] == r[i] by {
        if i < items.len() {
            assert(items.push(x)[i] == items[i]);
        } else {
            assert(items.push(x)[i] == x);
        }
    }
    assert(l =~= r);
}

/// What a sequence of items becomes, item by item.
pub proof fn lemma_fold_items_pointwise(items: Seq<ItemView>, ctx: DirCtxView)
    ensures
        spec_fold_items(items, ctx).len() == items.len(),
        forall|i: int|
            0 <= i < items.len() ==> spec_fold_items(items, ctx)[i] == spec_fold_item(
                #[trigger] items[i],
                ctx,
            ),
    decreases items.len(),
{
    if items.len() > 0 {
        lemma_fold_items_pointwise(items.drop_first(), ctx);
        assert forall|i: int| 0 <= i < items.len() implies spec_fold_items(items, ctx)[i]
            == spec_fold_item(#[trigger] items[i], ctx) by {
            if i > 0 {
                assert(items.drop_first()[i - 1] == items[i]);
                assert(spec_fold_items(items, ctx)[i] == spec_fold_items(
                    items.drop_first(),
                    ctx,
                )[i - 1]);
            }
        }
    }
}

/// Folding one more sibling folds it in place: what the earlier siblings
/// become does not depend on the added one, nor the added one on them.
pub proof fn lemma_fold_items_push(items: Seq<ItemView>, x: ItemView, ctx: DirCtxView)
    ensures
        spec_fold_items(items.push(x), ctx) == spec_fold_items(items, ctx).push(
            spec_fold_item(x, ctx),
        ),
{
    lemma_fold_items_pointwise(items.push(x), ctx);
    lemma_fold_items_pointwise(items, ctx);
    let l = spec_fold_items(items.push(x), ctx);
    let r = spec_fold_items(items, ctx).push(spec_fold_item(x, ctx));
    assert forall|i: int| 0 <= i < l.len() implies l[i] == r[i] by {
        if i < items.len() {
            assert(items.push(x)[i] == items[i]);
        } else {
            assert(items.push(x)[i] == x);
        }
    }
    assert(l =~= r);
}

/// The filesystem work of a sequence of siblings splits at any point: the
/// steps of the items before it come first, unchanged, then the steps of
/// the items after it, unchanged.
pub proof fn lemma_plan_items_concat(a: Seq<ItemView>, b: Seq<ItemView>, ctx: DirCtxView)
    ensures
        spec_plan_items(a + b, ctx) == spec_plan_items(a, ctx) + spec_plan_items(b, ctx),
    decreases a,
{
    if a.len() == 0 {
        assert(a + b =~= b);
        assert(spec_plan_items(a, ctx) =~= Seq::<PlanOpView>::empty());
        assert(spec_plan_items(a, ctx) + spec_plan_items(b, ctx) =~= spec_plan_items(b, ctx));
    } else {
        lemma_plan_items_concat(a.drop_first(), b, ctx);
        assert((a + b).drop_first() =~= a.drop_first() + b);
        assert((a + b)[0] == a[0]);
        assert(spec_plan_item(a[0], ctx) + (spec_plan_items(a.drop_first(), ctx)
            + spec_plan_items(b, ctx)) =~= (spec_plan_item(a[0], ctx) + spec_plan_items(
            a.drop_first(),
            ctx,
        )) + spec_plan_items(b, ctx));
    }
}

/// One more sibling adds exactly its own filesystem work, at the end.
pub proof fn lemma_plan_items_push(items: Seq<ItemView>, x: ItemView, ctx: DirCtxView)
    ensures
        spec_plan_items(items.push(x), ctx) == spec_plan_items(items, ctx) + spec_plan_item(
            x,
            ctx,
        ),
{
    assert(items.push(x) =~= items + seq![x]);
    lemma_plan_items_concat(items, seq![x], ctx);
    assert(seq![x].drop_first() =~= Seq::<ItemView>::empty());
    assert(seq![x][0] == x);
    assert(spec_plan_items(seq![x].drop_first(), ctx) == Seq::<PlanOpView>::empty());
    assert(spec_plan_item(x, ctx) + Seq::<PlanOpView>::empty() =~= spec_plan_item(x, ctx));
    assert(spec_plan_items(seq![x], ctx) == spec_plan_item(x, ctx));
}

/// Walks the extracted children of one relocated module and records its
/// filesystem work: the directory of the declaring level, the work of the
/// children, then the write of the module's own file.
pub fn fold_sub_mod(
    mod_fs_name: Vec<u8>,
    mod_has_path_attr: bool,
    items: Vec<TreeItem>,
    ctx: &DirCtx,
    plan: &mut Vec<PlanOp>,
) -> (r: Result<(), FormError>)
    ensures
        r is Ok <==> spec_items_ok(view_items(items@), false),
        r is Ok ==> view_plan(final(plan)@) == view_plan(old(plan)@) + seq![
            PlanOpView::EnsureDir(ctx@.directory),
        ] + spec_plan_items(
            view_items(items@),
            spec_sub_ctx(ctx@, mod_fs_name@, mod_has_path_attr),
        ) + seq![
            PlanOpView::EmitFile(
                spec_join(ctx@.directory, spec_file_name(mod_fs_name@)),
                spec_fold_items(
                    view_items(items@),
                    spec_sub_ctx(ctx@, mod_fs_name@, mod_has_path_attr),
                ),
            ),
        ],
        old(plan)@.is_prefix_of(final(plan)@),
    decreases items@, 2int,
{
    let ghost plan0 = plan@;
    let ghost fs0 = mod_fs_name@;
    let ghost items_g = items@;
    let dir_copy = copy_bytes(&ctx.directory);
    let op_dir = PlanOp::EnsureDir(dir_copy);
    let ghost op_dir_g = op_dir;
    plan.push(op_dir);
    proof {
        lemma_view_plan_push(plan0, op_dir_g);
        assert(plan0 =~= plan@.subrange(0, plan0.len() as int));
    }
    let ghost plan1 = plan@;
    let file_name = file_name_of(&mod_fs_name);
    let file_path = join_path(&ctx.directory, &file_name);
    let sub = ctx.sub_mod(mod_fs_name, mod_has_path_attr);
    let folded = match fold_items(items, &sub, plan) {
        Ok(f) => f,
        Err(e) => {
            proof {
                lemma_prefix_trans(plan0, plan1, plan@);
            }
            return Err(e);
        },
    };
    let ghost plan2 = plan@;
    let op_file = PlanOp::EmitFile(file_path, folded);
    let ghost op_file_g = op_file;
    plan.push(op_file);
    proof {
        lemma_view_plan_push(plan2, op_file_g);
        assert(view_plan(plan@) =~= view_plan(plan0) + seq![
            PlanOpView::EnsureDir(ctx@.directory),
        ] + spec_plan_items(
            view_items(items_g),
            spec_sub_ctx(ctx@, fs0, mod_has_path_attr),
        ) + seq![
            PlanOpView::EmitFile(
                spec_join(ctx@.directory, spec_file_name(fs0)),
                spec_fold_items(view_items(items_g), spec_sub_ctx(ctx@, fs0, mod_has_path_attr)),
            ),
        ]);
        lemma_prefix_trans(plan0, plan1, plan2);
        lemma_prefix_push(plan0, plan2, op_file_g);
    }
    Ok(())
}

/// Walks one item: a relocatable inline module has its children walked and
/// written under the child context, and its bodiless declaration comes
/// back; anything else comes back as it is.
pub fn fold_item(item: TreeItem, ctx: &DirCtx, plan: &mut Vec<PlanOp>) -> (r: Result<
    TreeItem,
    FormError,
>)
    ensures
        r is Ok <==> spec_item_ok(view_item(item), ctx@.enclosing_fs_name is None),
        r matches Ok(folded) ==> view_item(folded) == spec_fold_item(view_item(item), ctx@)
            && view_plan(final(plan)@) == view_plan(old(plan)@) + spec_plan_item(
            view_item(item),
            ctx@,
        ),
        old(plan)@.is_prefix_of(final(plan)@),
    decreases item, 0int,
{
    let ghost item0 = item;
    let ghost plan0 = plan@;
    match extract_mod(item, ctx) {
        Err(e) => {
            proof {
                assert(plan0 =~= plan@.subrange(0, plan0.len() as int));
            }
            Err(e)
        },
        Ok(Extracted::Keep(kept)) => {
            proof {
                assert(view_plan(plan@) =~= view_plan(plan0) + spec_plan_item(
                    view_item(item0),
                    ctx@,
                ));
                assert(plan0 =~= plan@.subrange(0, plan0.len() as int));
            }
            Ok(kept)
        },
        Ok(Extracted::Reloc(rel)) => {
            let Relocation { mod_decl, mod_fs_name, mod_has_path_attr, items } = rel;
            proof {
                assert(decreases_to!(item0 => item0->Module_0));
                assert(decreases_to!(item0->Module_0 => item0->Module_0.body));
                assert(decreases_to!(item0->Module_0.body => item0->Module_0.body->Inline_0));
                assert(decreases_to!(item0->Module_0.body->Inline_0 =>
                    item0->Module_0.body->Inline_0@));
                assert(items@ == item0->Module_0.body->Inline_0@);
            }
            match fold_sub_mod(mod_fs_name, mod_has_path_attr, items, ctx, plan) {
                Ok(_) => {
                    proof {
                        assert(view_plan(plan@) =~= view_plan(plan0) + spec_plan_item(
                            view_item(item0),
                            ctx@,
                        ));
                    }
                    Ok(mod_decl)
                },
                Err(e) => Err(e),
            }
        },
    }
}

/// Walks a sequence of sibling items in document order, giving back what
/// each becomes in the declaring file and recording the filesystem work of
/// every relocation among them and their descendants.
#[verifier::loop_isolation(false)]
pub fn fold_items(items: Vec<TreeItem>, ctx: &DirCtx, plan: &mut Vec<PlanOp>) -> (r: Result<
    Vec<TreeItem>,
    FormError,
>)
    ensures
        r is Ok <==> spec_items_ok(view_items(items@), ctx@.enclosing_fs_name is None),
        r matches Ok(folded) ==> view_items(folded@) == spec_fold_items(view_items(items@), ctx@)
            && view_plan(final(plan)@) == view_plan(old(plan)@) + spec_plan_items(
            view_items(items@),
            ctx@,
        ),
        old(plan)@.is_prefix_of(final(plan)@),
    decreases items@, 1int,
{
    let ghost items0 = items@;
    let ghost plan0 = plan@;
    let ghost top_g = ctx@.enclosing_fs_name is None;
    let mut rest = items;
    let mut out: Vec<TreeItem> = Vec::new();
    proof {
        assert(items0.take(0) =~= Seq::<TreeItem>::empty());
        assert(view_items(out@) =~= spec_fold_items(view_items(items0.take(0)), ctx@));
        assert(view_plan(plan@) =~= view_plan(plan0) + spec_plan_items(
            view_items(items0.take(0)),
            ctx@,
        ));
        assert(plan0 =~= plan@.subrange(0, plan0.len() as int));
    }
    while rest.len() > 0
        invariant
            out@.len() + rest@.len() == items0.len(),
            rest@ == items0.subrange(out@.len() as int, items0.len() as int),
            top_g == (ctx@.enclosing_fs_name is None),
            spec_items_ok(view_items(items0.take(out@.len() as int)), top_g),
            view_items(out@) == spec_fold_items(view_items(items0.take(out@.len() as int)), ctx@),
            view_plan(plan@) == view_plan(plan0) + spec_plan_items(
                view_items(items0.take(out@.len() as int)),
                ctx@,
            ),
            plan0.is_prefix_of(plan@),
            plan0 == old(plan)@,
        decreases rest@.len(),
    {
        let ghost k = out@.len() as int;
        let it = rest.remove(0);
        proof {
            assert(it == items0[k]);
            assert(rest@ =~= items0.subrange(k + 1, items0.len() as int));
            assert(decreases_to!(items0 => items0[k]));
        }
        let ghost plan_before = plan@;
        let folded = match fold_item(it, ctx, plan) {
            Ok(f) => f,
            Err(e) => {
                proof {
                    lemma_view_items_pointwise(items0);
                    lemma_items_ok_pointwise(view_items(items0), top_g);
                    lemma_prefix_trans(plan0, plan_before, plan@);
                }
                return Err(e);
            },
        };
        proof {
            lemma_prefix_trans(plan0, plan_before, plan@);
        }
        let ghost out_prev = out@;
        let ghost folded_g = folded;
        out.push(folded);
        proof {
            assert(items0.take(k + 1) =~= items0.take(k).push(items0[k]));
            lemma_view_items_push(items0.take(k), items0[k]);
            let vk = view_items(items0.take(k));
            let xv = view_item(items0[k]);
            lemma_items_ok_pointwise(vk, top_g);
            lemma_items_ok_pointwise(vk.push(xv), top_g);
            assert forall|i: int| 0 <= i < vk.push(xv).len() implies spec_item_ok(
                #[trigger] vk.push(xv)[i],
                top_g,
            ) by {
                if i < vk.len() {
                    assert(vk.push(xv)[i] == vk[i]);
                } else {
                    assert(vk.push(xv)[i] == xv);
                }
            }
            lemma_view_items_push(out_prev, folded_g);
            lemma_fold_items_push(vk, xv, ctx@);
            assert(view_items(out@) == spec_fold_items(view_items(items0.take(k + 1)), ctx@));
            lemma_plan_items_push(vk, xv, ctx@);
            assert(view_plan(plan@) =~= view_plan(plan0) + spec_plan_items(
                view_items(items0.take(k + 1)),
                ctx@,
            ));
        }
    }
    proof {
        assert(items0.take(items0.len() as int) =~= items0);
    }
    Ok(out)
}

/// The bytes of the root file's name.
pub fn lib_rs_name() -> (r: Vec<u8>)
    ensures
        r@ == spec_lib_rs(),
{
    let mut out: Vec<u8> = Vec::new();
    out.push(LC_L);
    out.push(LC_I);
    out.push(LC_B);
    out.push(DOT);
    out.push(LC_R);
    out.push(LC_S);
    proof {
        assert(out@ =~= spec_lib_rs());
    }
    out
}

/// Plans the whole relocation of a parsed file: every inline module,
/// recursively, becomes one file emission under the directory its module
/// chain names, descendants before their parent and siblings in document
/// order, and the rewritten top-level items become the root file, emitted
/// last.  Every file write is the creation of a new file: the caller must
/// refuse to overwrite a file that already exists, so that a run against
/// a directory holding an earlier run's output fails at the first file it
/// would disturb.
///
/// The run fails, with nothing planned, exactly when some module below the
/// top level is already bodiless, because its content is not visible to
/// the transform.
pub fn plan_directory_structure(items: Vec<TreeItem>) -> (r: Result<Vec<PlanOp>, FormError>)
    ensures
        r is Ok <==> spec_items_ok(view_items(items@), true),
        r is Err ==> r == Err::<Vec<PlanOp>, FormError>(FormError::NestedExternalModule),
        r matches Ok(plan) ==> view_plan(plan@) == spec_plan(view_items(items@)),
{
    let ghost items_g = items@;
    let mut plan: Vec<PlanOp> = Vec::new();
    plan.push(PlanOp::EnsureDir(Vec::new()));
    let ctx = DirCtx {
        directory: Vec::new(),
        enclosing_fs_name: None,
        path_attr_required: false,
    };
    proof {
        assert(ctx@ =~= spec_root_ctx());
        assert(view_plan(plan@) =~~= seq![PlanOpView::EnsureDir(Seq::<u8>::empty())]);
    }
    let folded = match fold_items(items, &ctx, &mut plan) {
        Ok(f) => f,
        Err(_) => {
            return Err(FormError::NestedExternalModule);
        },
    };
    let ghost plan2 = plan@;
    let name = lib_rs_name();
    let op_root = PlanOp::EmitFile(name, folded);
    let ghost op_root_g = op_root;
    plan.push(op_root);
    proof {
        lemma_view_plan_push(plan2, op_root_g);
        assert(view_plan(plan@) =~= spec_plan(view_items(items_g)));
    }
    Ok(plan)
}

} // verus!
