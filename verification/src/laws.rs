//! What holds of the transform as a whole: every emitted file holds only
//! bodiless module declarations; once a location annotation becomes
//! necessary on some module, everything below it is annotated too; and
//! siblings are relocated independently of one another, so their order
//! only orders the work.

use vstd::prelude::*;

use crate::fold::{
    DirCtxView,
    PlanOpView,
    lemma_fold_items_pointwise,
    spec_fold_item,
    spec_fold_items,
    spec_needs_attr,
    spec_plan,
    spec_plan_item,
    spec_plan_items,
    spec_root_ctx,
    spec_sub_ctx,
};
use crate::names::spec_fs_name;
use crate::names::spec_is_reserved;
use crate::tree::{
    ItemView,
    ModBodyView,
    ModItemView,
    lemma_items_ok_pointwise,
    spec_item_annotated,
    spec_item_external,
    spec_item_ok,
    spec_items_annotated,
    spec_items_external,
    spec_items_ok,
};

verus! {

/// If the step writes a file, every module declaration in it is bodiless.
pub open spec fn spec_op_external(op: PlanOpView) -> bool {
    match op {
        PlanOpView::EnsureDir(_) => true,
        PlanOpView::EmitFile(_, tree) => spec_items_external(tree),
    }
}

/// Every file the steps write holds only bodiless module declarations.
pub open spec fn spec_ops_external(ops: Seq<PlanOpView>) -> bool {
    forall|i: int| 0 <= i < ops.len() ==> spec_op_external(#[trigger] ops[i])
}

/// If the step writes a file, every module declaration in it carries a
/// location annotation.
pub open spec fn spec_op_annotated(op: PlanOpView) -> bool {
    match op {
        PlanOpView::EnsureDir(_) => true,
        PlanOpView::EmitFile(_, tree) => spec_items_annotated(tree),
    }
}

/// Every file the steps write holds only annotated module declarations.
pub open spec fn spec_ops_annotated(ops: Seq<PlanOpView>) -> bool {
    forall|i: int| 0 <= i < ops.len() ==> spec_op_annotated(#[trigger] ops[i])
}

/// What one item becomes in its declaring file is never an inline module.
pub proof fn lemma_fold_item_external(item: ItemView, ctx: DirCtxView)
    ensures
        spec_item_external(spec_fold_item(item, ctx)),
{
}

/// Totality of relocation, for one file's items: whatever the input,
/// every module declaration the walk leaves in the declaring file is
/// bodiless.
pub proof fn lemma_fold_items_external(items: Seq<ItemView>, ctx: DirCtxView)
    ensures
        spec_items_external(spec_fold_items(items, ctx)),
{
    lemma_fold_items_pointwise(items, ctx);
    assert forall|i: int| 0 <= i < spec_fold_items(items, ctx).len() implies spec_item_external(
        #[trigger] spec_fold_items(items, ctx)[i],
    ) by {
        lemma_fold_item_external(items[i], ctx);
    }
}

/// Totality of relocation, for the files one item's relocation emits.
pub proof fn lemma_plan_item_external(item: ItemView, ctx: DirCtxView)
    ensures
        spec_ops_external(spec_plan_item(item, ctx)),
    decreases item,
{
    match item {
        ItemView::Module(m) => match m.body {
            ModBodyView::Inline(children) => {
                let fs_name = spec_fs_name(m.name);
                let sub = spec_sub_ctx(ctx, fs_name, spec_needs_attr(ctx, m.name));
                lemma_plan_items_external(children, sub);
                lemma_fold_items_external(children, sub);
                let ops = spec_plan_item(item, ctx);
                assert forall|i: int| 0 <= i < ops.len() implies spec_op_external(
                    #[trigger] ops[i],
                ) by {
                    if 1 <= i < ops.len() - 1 {
                        assert(ops[i] == spec_plan_items(children, sub)[i - 1]);
                    }
                }
            },
            ModBodyView::External => {
            },
        },
        ItemView::Other(_) => {
        },
    }
}

/// Totality of relocation, for the files a sequence of siblings emits.
pub proof fn lemma_plan_items_external(items: Seq<ItemView>, ctx: DirCtxView)
    ensures
        spec_ops_external(spec_plan_items(items, ctx)),
    decreases items,
{
    if items.len() > 0 {
        lemma_plan_item_external(items[0], ctx);
        lemma_plan_items_external(items.drop_first(), ctx);
        let head = spec_plan_item(items[0], ctx);
        let tail = spec_plan_items(items.drop_first(), ctx);
        assert forall|i: int| 0 <= i < spec_plan_items(items, ctx).len() implies spec_op_external(
            #[trigger] spec_plan_items(items, ctx)[i],
        ) by {
            if i < head.len() {
                assert(spec_plan_items(items, ctx)[i] == head[i]);
            } else {
                assert(spec_plan_items(items, ctx)[i] == tail[i - head.len()]);
            }
        }
    }
}

/// Totality of relocation: in the whole plan for an input tree, the root
/// file included, no module declaration retains an inline body — every
/// module has become bodiless.
pub proof fn lemma_plan_totality(items: Seq<ItemView>)
    ensures
        spec_ops_external(spec_plan(items)),
{
    let root = spec_root_ctx();
    lemma_plan_items_external(items, root);
    lemma_fold_items_external(items, root);
    let mid = spec_plan_items(items, root);
    let ops = spec_plan(items);
    assert forall|i: int| 0 <= i < ops.len() implies spec_op_external(#[trigger] ops[i]) by {
        if 1 <= i < ops.len() - 1 {
            assert(ops[i] == mid[i - 1]);
        }
    }
}

/// Once annotations are required, what each item becomes in its declaring
/// file is annotated, provided the input is of the supported shape.
pub proof fn lemma_fold_items_annotated(items: Seq<ItemView>, ctx: DirCtxView)
    requires
        ctx.path_attr_required,
        spec_items_ok(items, false),
    ensures
        spec_items_annotated(spec_fold_items(items, ctx)),
{
    lemma_fold_items_pointwise(items, ctx);
    lemma_items_ok_pointwise(items, false);
    assert forall|i: int| 0 <= i < spec_fold_items(items, ctx).len() implies spec_item_annotated(
        #[trigger] spec_fold_items(items, ctx)[i],
    ) by {
        assert(spec_item_ok(items[i], false));
    }
}

/// Once annotations are required, every file emitted below holds only
/// annotated module declarations.
pub proof fn lemma_plan_item_annotated(item: ItemView, ctx: DirCtxView)
    requires
        ctx.path_attr_required,
        spec_item_ok(item, false),
    ensures
        spec_ops_annotated(spec_plan_item(item, ctx)),
    decreases item,
{
    match item {
        ItemView::Module(m) => match m.body {
            ModBodyView::Inline(children) => {
                let fs_name = spec_fs_name(m.name);
                let sub = spec_sub_ctx(ctx, fs_name, spec_needs_attr(ctx, m.name));
                lemma_plan_items_annotated(children, sub);
                lemma_fold_items_annotated(children, sub);
                let ops = spec_plan_item(item, ctx);
                assert forall|i: int| 0 <= i < ops.len() implies spec_op_annotated(
                    #[trigger] ops[i],
                ) by {
                    if 1 <= i < ops.len() - 1 {
                        assert(ops[i] == spec_plan_items(children, sub)[i - 1]);
                    }
                }
            },
            ModBodyView::External => {
            },
        },
        ItemView::Other(_) => {
        },
    }
}

/// Once annotations are required, every file a sequence of siblings emits
/// holds only annotated module declarations.
pub proof fn lemma_plan_items_annotated(items: Seq<ItemView>, ctx: DirCtxView)
    requires
        ctx.path_attr_required,
        spec_items_ok(items, false),
    ensures
        spec_ops_annotated(spec_plan_items(items, ctx)),
    decreases items,
{
    if items.len() > 0 {
        lemma_plan_item_annotated(items[0], ctx);
        lemma_plan_items_annotated(items.drop_first(), ctx);
        let head = spec_plan_item(items[0], ctx);
        let tail = spec_plan_items(items.drop_first(), ctx);
        assert forall|i: int| 0 <= i < spec_plan_items(items, ctx).len() implies spec_op_annotated(
            #[trigger] spec_plan_items(items, ctx)[i],
        ) by {
            if i < head.len() {
                assert(spec_plan_items(items, ctx)[i] == head[i]);
            } else {
                assert(spec_plan_items(items, ctx)[i] == tail[i - head.len()]);
            }
        }
    }
}

/// Reserved-name monotonicity: when a relocated module's on-disk name
/// diverges from its identifier because the name is reserved — or when an
/// ancestor already made annotations necessary — the module's own
/// rewritten declaration carries a location annotation, and so does every
/// module declaration in every file emitted for its descendants.
pub proof fn lemma_reserved_name_monotonic(m: ModItemView, ctx: DirCtxView)
    requires
        spec_is_reserved(m.name) || ctx.path_attr_required,
        spec_item_ok(ItemView::Module(m), false),
    ensures
        spec_item_annotated(spec_fold_item(ItemView::Module(m), ctx)),
        spec_ops_annotated(spec_plan_item(ItemView::Module(m), ctx)),
{
    match m.body {
        ModBodyView::Inline(children) => {
            let fs_name = spec_fs_name(m.name);
            let sub = spec_sub_ctx(ctx, fs_name, spec_needs_attr(ctx, m.name));
            lemma_plan_items_annotated(children, sub);
            lemma_fold_items_annotated(children, sub);
            let ops = spec_plan_item(ItemView::Module(m), ctx);
            assert forall|i: int| 0 <= i < ops.len() implies spec_op_annotated(
                #[trigger] ops[i],
            ) by {
                if 1 <= i < ops.len() - 1 {
                    assert(ops[i] == spec_plan_items(children, sub)[i - 1]);
                }
            }
        },
        ModBodyView::External => {
        },
    }
}

/// Order invariance of siblings: two siblings contribute their filesystem
/// work and their rewritten declarations independently of each other.
/// Swapping them in the source swaps the order of their contributions and
/// nothing else: each one's files keep their paths and contents.
pub proof fn lemma_sibling_order_invariance(a: ItemView, b: ItemView, ctx: DirCtxView)
    ensures
        spec_plan_items(seq![a, b], ctx) == spec_plan_item(a, ctx) + spec_plan_item(b, ctx),
        spec_plan_items(seq![b, a], ctx) == spec_plan_item(b, ctx) + spec_plan_item(a, ctx),
        spec_fold_items(seq![a, b], ctx) == seq![spec_fold_item(a, ctx), spec_fold_item(b, ctx)],
        spec_fold_items(seq![b, a], ctx) == seq![spec_fold_item(b, ctx), spec_fold_item(a, ctx)],
{
    lemma_pair_plan(a, b, ctx);
    lemma_pair_plan(b, a, ctx);
}

/// The plan and the fold of a two-item sequence, spelled out.
proof fn lemma_pair_plan(a: ItemView, b: ItemView, ctx: DirCtxView)
    ensures
        spec_plan_items(seq![a, b], ctx) == spec_plan_item(a, ctx) + spec_plan_item(b, ctx),
        spec_fold_items(seq![a, b], ctx) == seq![spec_fold_item(a, ctx), spec_fold_item(b, ctx)],
{
    let s = seq![a, b];
    assert(s.drop_first() =~= seq![b]);
    assert(seq![b].drop_first() =~= Seq::<ItemView>::empty());
    assert(spec_plan_items(Seq::<ItemView>::empty(), ctx) == Seq::<PlanOpView>::empty());
    assert(spec_plan_items(seq![b], ctx) =~= spec_plan_item(b, ctx));
    assert(spec_plan_items(s, ctx) =~= spec_plan_item(a, ctx) + spec_plan_item(b, ctx));
    assert(spec_fold_items(Seq::<ItemView>::empty(), ctx) == Seq::<ItemView>::empty());
    assert(spec_fold_items(seq![b], ctx) =~= seq![spec_fold_item(b, ctx)]);
    assert(spec_fold_items(s, ctx) =~= seq![spec_fold_item(a, ctx), spec_fold_item(b, ctx)]);
}

} // verus!

