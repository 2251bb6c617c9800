//! The planned relocation, checked on concrete trees: the end-to-end
//! layout, the reserved-name handling, the failure on nested bodiless
//! modules, and the independence of siblings.

use form::fold::{plan_directory_structure, FormError, PlanOp};
use form::tree::{ModBody, ModItem, TreeItem};

fn module(name: &str, children: Vec<TreeItem>) -> TreeItem {
    TreeItem::Module(ModItem {
        name: name.as_bytes().to_vec(),
        path_attr: None,
        decl: None,
        body: ModBody::Inline(children),
    })
}

fn external_module(name: &str) -> TreeItem {
    TreeItem::Module(ModItem {
        name: name.as_bytes().to_vec(),
        path_attr: None,
        decl: None,
        body: ModBody::External,
    })
}

fn item(src: &str) -> TreeItem {
    TreeItem::Other(syn::parse_str::<syn::Item>(src).expect("fixture item parses"))
}

fn ensure_dir(op: &PlanOp) -> &Vec<u8> {
    match op {
        PlanOp::EnsureDir(dir) => dir,
        PlanOp::EmitFile(path, _) => {
            panic!("expected a directory step, got a file at {:?}", path)
        },
    }
}

fn emit_file(op: &PlanOp) -> (&Vec<u8>, &Vec<TreeItem>) {
    match op {
        PlanOp::EmitFile(path, tree) => (path, tree),
        PlanOp::EnsureDir(dir) => panic!("expected a file step, got a directory {:?}", dir),
    }
}

fn expect_other(it: &TreeItem, src: &str) {
    let want = syn::parse_str::<syn::Item>(src).expect("fixture item parses");
    match it {
        TreeItem::Other(got) => assert_eq!(got, &want),
        TreeItem::Module(_) => panic!("expected an opaque item, got a module"),
    }
}

fn expect_bodiless(it: &TreeItem, name: &str, path_attr: Option<&str>) {
    match it {
        TreeItem::Module(m) => {
            assert_eq!(m.name.as_slice(), name.as_bytes());
            match m.body {
                ModBody::External => {},
                ModBody::Inline(_) => panic!("module {} still has an inline body", name),
            }
            match (path_attr, &m.path_attr) {
                (None, None) => {},
                (Some(want), Some(got)) => assert_eq!(got.as_slice(), want.as_bytes()),
                (want, got) => panic!(
                    "module {}: wanted annotation {:?}, got {:?}",
                    name, want, got
                ),
            }
        },
        TreeItem::Other(_) => panic!("expected module {}, got an opaque item", name),
    }
}

/// The literal end-to-end scenario: two top-level modules, one of them
/// nested three deep, produce one file per module beside one directory
/// per module that has module children, and the root file last.
#[test]
fn plan_for_nested_modules() {
    let items = vec![
        module("interrupt", vec![item("pub const X: u8 = 3;")]),
        module(
            "ac",
            vec![
                module(
                    "ac2",
                    vec![
                        item("pub const Y: u8 = 1;"),
                        module("ac3", vec![item("pub const Z: u8 = 2;")]),
                    ],
                ),
                item("pub const W: u8 = 4;"),
            ],
        ),
    ];
    let plan = plan_directory_structure(items).expect("supported input");
    assert_eq!(plan.len(), 10);

    assert_eq!(ensure_dir(&plan[0]).as_slice(), b"");
    assert_eq!(ensure_dir(&plan[1]).as_slice(), b"");
    let (path, tree) = emit_file(&plan[2]);
    assert_eq!(path.as_slice(), b"interrupt.rs");
    assert_eq!(tree.len(), 1);
    expect_other(&tree[0], "pub const X: u8 = 3;");

    assert_eq!(ensure_dir(&plan[3]).as_slice(), b"");
    assert_eq!(ensure_dir(&plan[4]).as_slice(), b"ac");
    assert_eq!(ensure_dir(&plan[5]).as_slice(), b"ac/ac2");

    let (path, tree) = emit_file(&plan[6]);
    assert_eq!(path.as_slice(), b"ac/ac2/ac3.rs");
    assert_eq!(tree.len(), 1);
    expect_other(&tree[0], "pub const Z: u8 = 2;");

    let (path, tree) = emit_file(&plan[7]);
    assert_eq!(path.as_slice(), b"ac/ac2.rs");
    assert_eq!(tree.len(), 2);
    expect_other(&tree[0], "pub const Y: u8 = 1;");
    expect_bodiless(&tree[1], "ac3", None);

    let (path, tree) = emit_file(&plan[8]);
    assert_eq!(path.as_slice(), b"ac.rs");
    assert_eq!(tree.len(), 2);
    expect_bodiless(&tree[0], "ac2", None);
    expect_other(&tree[1], "pub const W: u8 = 4;");

    let (path, tree) = emit_file(&plan[9]);
    assert_eq!(path.as_slice(), b"lib.rs");
    assert_eq!(tree.len(), 2);
    expect_bodiless(&tree[0], "interrupt", None);
    expect_bodiless(&tree[1], "ac", None);
}

/// After the transform no module anywhere in any emitted file retains an
/// inline body: every module declaration has become bodiless.
#[test]
fn no_emitted_file_holds_an_inline_module() {
    let items = vec![
        module("interrupt", vec![item("pub const X: u8 = 3;")]),
        module(
            "ac",
            vec![
                module(
                    "ac2",
                    vec![
                        item("pub const Y: u8 = 1;"),
                        module("ac3", vec![item("pub const Z: u8 = 2;")]),
                    ],
                ),
                item("pub const W: u8 = 4;"),
            ],
        ),
        item("pub struct AC;"),
    ];
    let plan = plan_directory_structure(items).expect("supported input");
    for op in &plan {
        if let PlanOp::EmitFile(path, tree) = op {
            for it in tree {
                if let TreeItem::Module(m) = it {
                    assert!(
                        matches!(m.body, ModBody::External),
                        "inline module {:?} left in {:?}",
                        m.name,
                        path
                    );
                }
            }
        }
    }
}

/// No file path is planned twice in one run, and the root file comes
/// last: the caller's create-new writes can only conflict with files of
/// an earlier run.
#[test]
fn plan_writes_each_path_once() {
    let items = vec![
        module("interrupt", vec![item("pub const X: u8 = 3;")]),
        module(
            "ac",
            vec![module("ac2", vec![module("ac3", vec![])])],
        ),
    ];
    let plan = plan_directory_structure(items).expect("supported input");
    let mut paths: Vec<Vec<u8>> = Vec::new();
    for op in &plan {
        if let PlanOp::EmitFile(path, _) = op {
            assert!(!paths.contains(path), "path planned twice: {:?}", path);
            paths.push(path.clone());
        }
    }
    let (last, _) = emit_file(plan.last().expect("plan not empty"));
    assert_eq!(last.as_slice(), b"lib.rs");
}

/// A module named like a reserved device name gets an underscore in its
/// file name, and its declaration carries the location annotation.
#[test]
fn reserved_name_gets_file_and_annotation() {
    let items = vec![module("CON", vec![item("pub const A: u8 = 1;")])];
    let plan = plan_directory_structure(items).expect("supported input");
    assert_eq!(plan.len(), 4);
    let (path, tree) = emit_file(&plan[2]);
    assert_eq!(path.as_slice(), b"CON_.rs");
    expect_other(&tree[0], "pub const A: u8 = 1;");
    let (path, tree) = emit_file(&plan[3]);
    assert_eq!(path.as_slice(), b"lib.rs");
    expect_bodiless(&tree[0], "CON", Some("CON_.rs"));
}

/// The reserved table is case-insensitive: a lower-case reserved name is
/// remapped the same way.
#[test]
fn reserved_name_any_case() {
    let items = vec![module("con", vec![item("pub const A: u8 = 1;")])];
    let plan = plan_directory_structure(items).expect("supported input");
    let (path, _) = emit_file(&plan[2]);
    assert_eq!(path.as_slice(), b"con_.rs");
    let (_, tree) = emit_file(&plan[3]);
    expect_bodiless(&tree[0], "con", Some("con_.rs"));
}

/// A reserved name below the top level: the file sits in the enclosing
/// module's directory and the annotation names the enclosing directory.
#[test]
fn reserved_name_nested() {
    let items = vec![module("outer", vec![module("con", vec![item("pub const A: u8 = 1;")])])];
    let plan = plan_directory_structure(items).expect("supported input");
    assert_eq!(plan.len(), 6);
    assert_eq!(ensure_dir(&plan[2]).as_slice(), b"outer");
    let (path, _) = emit_file(&plan[3]);
    assert_eq!(path.as_slice(), b"outer/con_.rs");
    let (path, tree) = emit_file(&plan[4]);
    assert_eq!(path.as_slice(), b"outer.rs");
    expect_bodiless(&tree[0], "con", Some("outer/con_.rs"));
    let (_, tree) = emit_file(&plan[5]);
    expect_bodiless(&tree[0], "outer", None);
}

/// Everything below a renamed module carries an annotation, even when its
/// own name is harmless: the ancestor's on-disk name already diverges.
#[test]
fn annotations_are_inherited_below_reserved_name() {
    let items = vec![module("CON", vec![module("inner", vec![item("pub const A: u8 = 1;")])])];
    let plan = plan_directory_structure(items).expect("supported input");
    assert_eq!(plan.len(), 6);
    assert_eq!(ensure_dir(&plan[2]).as_slice(), b"CON_");
    let (path, _) = emit_file(&plan[3]);
    assert_eq!(path.as_slice(), b"CON_/inner.rs");
    let (path, tree) = emit_file(&plan[4]);
    assert_eq!(path.as_slice(), b"CON_.rs");
    expect_bodiless(&tree[0], "inner", Some("CON_/inner.rs"));
    let (_, tree) = emit_file(&plan[5]);
    expect_bodiless(&tree[0], "CON", Some("CON_.rs"));
}

/// A module that is already bodiless may stand at the top level and is
/// left as it is.
#[test]
fn top_level_external_module_is_kept() {
    let items = vec![external_module("elsewhere"), item("pub const A: u8 = 1;")];
    let plan = plan_directory_structure(items).expect("supported input");
    assert_eq!(plan.len(), 2);
    let (path, tree) = emit_file(&plan[1]);
    assert_eq!(path.as_slice(), b"lib.rs");
    expect_bodiless(&tree[0], "elsewhere", None);
    expect_other(&tree[1], "pub const A: u8 = 1;");
}

/// A bodiless module below the top level is unsupported input: the whole
/// run fails.
#[test]
fn nested_external_module_fails() {
    let items = vec![module("m", vec![external_module("hidden")])];
    let got = plan_directory_structure(items);
    assert_eq!(got, Err(FormError::NestedExternalModule));
}

/// Swapping two sibling modules swaps the order of their filesystem work
/// and nothing else: each one's files keep their paths and contents.
#[test]
fn sibling_order_only_orders_the_work() {
    let a = || module("alpha", vec![item("pub const A: u8 = 1;")]);
    let b = || module("beta", vec![item("pub const B: u8 = 2;")]);

    let plan_ab = plan_directory_structure(vec![a(), b()]).expect("supported input");
    let plan_ba = plan_directory_structure(vec![b(), a()]).expect("supported input");
    assert_eq!(plan_ab.len(), 6);
    assert_eq!(plan_ba.len(), 6);

    // alpha's steps: 1-2 in one plan, 3-4 in the other; identical.
    let (path, tree) = emit_file(&plan_ab[2]);
    assert_eq!(path.as_slice(), b"alpha.rs");
    expect_other(&tree[0], "pub const A: u8 = 1;");
    let (path_swapped, tree_swapped) = emit_file(&plan_ba[4]);
    assert_eq!(path, path_swapped);
    assert_eq!(tree, tree_swapped);

    let (path, tree) = emit_file(&plan_ab[4]);
    assert_eq!(path.as_slice(), b"beta.rs");
    expect_other(&tree[0], "pub const B: u8 = 2;");
    let (path_swapped, tree_swapped) = emit_file(&plan_ba[2]);
    assert_eq!(path, path_swapped);
    assert_eq!(tree, tree_swapped);
}

/// An empty module still becomes a file of its own, with an empty body
/// and no directory for children it does not have.
#[test]
fn empty_module_gets_empty_file() {
    let items = vec![module("quiet", vec![])];
    let plan = plan_directory_structure(items).expect("supported input");
    assert_eq!(plan.len(), 4);
    let (path, tree) = emit_file(&plan[2]);
    assert_eq!(path.as_slice(), b"quiet.rs");
    assert_eq!(tree.len(), 0);
}

/// An empty input tree still produces the root directory and root file.
#[test]
fn empty_input_still_emits_root_file() {
    let plan = plan_directory_structure(vec![]).expect("supported input");
    assert_eq!(plan.len(), 2);
    assert_eq!(ensure_dir(&plan[0]).as_slice(), b"");
    let (path, tree) = emit_file(&plan[1]);
    assert_eq!(path.as_slice(), b"lib.rs");
    assert_eq!(tree.len(), 0);
}

/// The declaration a module was parsed with rides along unchanged to the
/// emitted bodiless declaration.
#[test]
fn parsed_declaration_is_carried_through() {
    let decl = syn::parse_str::<syn::ItemMod>("#[doc(hidden)] pub mod interrupt;")
        .expect("fixture declaration parses");
    let items = vec![TreeItem::Module(ModItem {
        name: b"interrupt".to_vec(),
        path_attr: None,
        decl: Some(decl.clone()),
        body: ModBody::Inline(vec![item("pub const X: u8 = 3;")]),
    })];
    let plan = plan_directory_structure(items).expect("supported input");
    let (_, tree) = emit_file(&plan[3]);
    match &tree[0] {
        TreeItem::Module(m) => assert_eq!(m.decl.as_ref(), Some(&decl)),
        TreeItem::Other(_) => panic!("expected the module declaration"),
    }
}
