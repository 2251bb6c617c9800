//! The module extractor, checked on one item at a time.

use form::fold::{extract_mod, DirCtx, Extracted, FormError, Relocation};
use form::tree::{ModBody, ModItem, TreeItem};

fn top_ctx() -> DirCtx {
    DirCtx { directory: Vec::new(), enclosing_fs_name: None, path_attr_required: false }
}

fn nested_ctx(enclosing: &str, required: bool) -> DirCtx {
    DirCtx {
        directory: enclosing.as_bytes().to_vec(),
        enclosing_fs_name: Some(enclosing.as_bytes().to_vec()),
        path_attr_required: required,
    }
}

fn inline_module(name: &str, children: Vec<TreeItem>) -> TreeItem {
    TreeItem::Module(ModItem {
        name: name.as_bytes().to_vec(),
        path_attr: None,
        decl: None,
        body: ModBody::Inline(children),
    })
}

fn external_module(name: &str) -> TreeItem {
    TreeItem::Module(ModItem {
        name: name.as_bytes().to_vec(),
        path_attr: None,
        decl: None,
        body: ModBody::External,
    })
}

fn reloc(r: Result<Extracted, FormError>) -> Relocation {
    match r {
        Ok(Extracted::Reloc(rel)) => rel,
        Ok(Extracted::Keep(_)) => panic!("expected a relocation, item was kept"),
        Err(e) => panic!("expected a relocation, got {:?}", e),
    }
}

#[test]
fn opaque_item_is_kept() {
    let it = TreeItem::Other(syn::parse_str("pub fn f() {}").expect("fixture item parses"));
    match extract_mod(it, &top_ctx()) {
        Ok(Extracted::Keep(TreeItem::Other(_))) => {},
        other => panic!("expected the item back, got {:?}", discriminant_name(&other)),
    }
}

#[test]
fn top_level_external_is_kept() {
    match extract_mod(external_module("done"), &top_ctx()) {
        Ok(Extracted::Keep(TreeItem::Module(m))) => {
            assert_eq!(m.name.as_slice(), b"done");
            assert!(matches!(m.body, ModBody::External));
        },
        other => panic!("expected the module back, got {:?}", discriminant_name(&other)),
    }
}

#[test]
fn nested_external_is_refused() {
    let got = extract_mod(external_module("hidden"), &nested_ctx("outer", false));
    match got {
        Err(FormError::NestedExternalModule) => {},
        other => panic!("expected a refusal, got {:?}", discriminant_name(&other)),
    }
}

#[test]
fn inline_module_is_relocated() {
    let child = TreeItem::Other(syn::parse_str("pub const A: u8 = 1;").expect("parses"));
    let rel = reloc(extract_mod(inline_module("plain", vec![child]), &top_ctx()));
    assert_eq!(rel.mod_fs_name.as_slice(), b"plain");
    assert!(!rel.mod_has_path_attr);
    assert_eq!(rel.items.len(), 1);
    match &rel.mod_decl {
        TreeItem::Module(m) => {
            assert_eq!(m.name.as_slice(), b"plain");
            assert!(matches!(m.body, ModBody::External));
            assert!(m.path_attr.is_none());
        },
        TreeItem::Other(_) => panic!("expected the bodiless declaration"),
    }
}

#[test]
fn reserved_inline_module_is_renamed_and_annotated() {
    let rel = reloc(extract_mod(inline_module("NUL", vec![]), &top_ctx()));
    assert_eq!(rel.mod_fs_name.as_slice(), b"NUL_");
    assert!(rel.mod_has_path_attr);
    match &rel.mod_decl {
        TreeItem::Module(m) => {
            assert_eq!(m.name.as_slice(), b"NUL");
            assert_eq!(m.path_attr.as_ref().expect("annotated").as_slice(), b"NUL_.rs");
        },
        TreeItem::Other(_) => panic!("expected the bodiless declaration"),
    }
}

#[test]
fn inherited_requirement_annotates_harmless_names() {
    let rel = reloc(extract_mod(inline_module("inner", vec![]), &nested_ctx("CON_", true)));
    assert_eq!(rel.mod_fs_name.as_slice(), b"inner");
    assert!(rel.mod_has_path_attr);
    match &rel.mod_decl {
        TreeItem::Module(m) => {
            assert_eq!(
                m.path_attr.as_ref().expect("annotated").as_slice(),
                b"CON_/inner.rs"
            );
        },
        TreeItem::Other(_) => panic!("expected the bodiless declaration"),
    }
}

#[test]
fn unrequired_nested_module_is_unannotated() {
    let rel = reloc(extract_mod(inline_module("inner", vec![]), &nested_ctx("outer", false)));
    assert_eq!(rel.mod_fs_name.as_slice(), b"inner");
    assert!(!rel.mod_has_path_attr);
    match &rel.mod_decl {
        TreeItem::Module(m) => assert!(m.path_attr.is_none()),
        TreeItem::Other(_) => panic!("expected the bodiless declaration"),
    }
}

fn discriminant_name(r: &Result<Extracted, FormError>) -> &'static str {
    match r {
        Ok(Extracted::Keep(_)) => "kept",
        Ok(Extracted::Reloc(_)) => "relocated",
        Err(_) => "refused",
    }
}
