use yarn_wrapper_gen::Error;
use yarn_wrapper_gen::class::Class;
use yarn_wrapper_gen::class::target_namespace;
use yarn_wrapper_gen::descriptor::resolve_type_name;
use yarn_wrapper_gen::descriptor::split_descriptor;
use yarn_wrapper_gen::index::Index;
use yarn_wrapper_gen::strutil::apply_remap;

fn no_remap() -> Vec<(String, String)> {
    Vec::new()
}

#[test]
fn split_tokens_concatenate_back() {
    let s = "ILfoo/Bar;[JD[[Lbaz;Z";
    let toks = split_descriptor(s).unwrap();
    assert_eq!(
        toks,
        vec![
            "I".to_string(),
            "Lfoo/Bar;".to_string(),
            "[J".to_string(),
            "D".to_string(),
            "[[Lbaz;".to_string(),
            "Z".to_string()
        ]
    );
    let mut joined = String::new();
    for t in &toks {
        joined.push_str(t);
    }
    assert_eq!(joined, s);
    assert_eq!(split_descriptor(""), Ok(Vec::new()));
    assert_eq!(split_descriptor("Q"), Err(Error::UnknownDescriptorToken));
    assert_eq!(split_descriptor("Lunterminated"), Err(Error::UnknownDescriptorToken));
    assert_eq!(split_descriptor("["), Err(Error::UnknownDescriptorToken));
}

#[test]
fn array_nesting_depth_is_preserved() {
    let ix = Index::new(&Vec::new()).unwrap();
    let tns = target_namespace();
    let r = resolve_type_name("[[I", &ix, &tns, "pkg", &no_remap(), true).unwrap();
    assert_eq!(r, "int[][]");
    let r2 = resolve_type_name("[Lfoo/Bar;", &ix, &tns, "pkg", &no_remap(), true).unwrap();
    assert_eq!(r2, "foo.Bar[]");
}

#[test]
fn primitive_and_synthetic_tokens() {
    let ix = Index::new(&Vec::new()).unwrap();
    let tns = target_namespace();
    let cases = vec![
        ("B", "byte"),
        ("C", "char"),
        ("D", "double"),
        ("F", "float"),
        ("I", "int"),
        ("J", "long"),
        ("S", "short"),
        ("Z", "boolean"),
        ("V", "void"),
        ("", ""),
        ("Lfoo/Bar$Inner;", "Object"),
    ];
    for (tok, want) in cases {
        assert_eq!(resolve_type_name(tok, &ix, &tns, "pkg", &no_remap(), true).unwrap(), want);
    }
    assert_eq!(
        resolve_type_name("II", &ix, &tns, "pkg", &no_remap(), true),
        Err(Error::UnknownDescriptorToken)
    );
}

#[test]
fn wrapped_names_carry_the_package_prefix() {
    let texts = vec![
        "CLASS aa net/minecraft/Foo".to_string(),
        "CLASS bb some/other/Thing".to_string(),
    ];
    let ix = Index::new(&texts).unwrap();
    let tns = target_namespace();
    let wrapped = resolve_type_name("Laa;", &ix, &tns, "pkg", &no_remap(), true).unwrap();
    assert_eq!(wrapped, "pkg.net.minecraft.Foo");
    assert!(wrapped.starts_with("pkg"));
    // found but not under the target namespace: the raw real path
    let raw = resolve_type_name("Lbb;", &ix, &tns, "pkg", &no_remap(), true).unwrap();
    assert_eq!(raw, "some.other.Thing");
    assert!(!raw.starts_with("pkg"));
    // found under the namespace but wrapping disallowed: the raw real path
    let unwrapped = resolve_type_name("Laa;", &ix, &tns, "pkg", &no_remap(), false).unwrap();
    assert_eq!(unwrapped, "net.minecraft.Foo");
    // not found at all: slashes become dots
    let missing = resolve_type_name("Lzz/Missing;", &ix, &tns, "pkg", &no_remap(), true).unwrap();
    assert_eq!(missing, "zz.Missing");
}

#[test]
fn remap_applies_in_table_order() {
    let table = vec![("d".to_string(), "X".to_string()), ("X".to_string(), "Y".to_string())];
    assert_eq!(apply_remap("pkg.d.e", &table), "pkg.Y.e");
    let reversed = vec![("X".to_string(), "Y".to_string()), ("d".to_string(), "X".to_string())];
    assert_eq!(apply_remap("pkg.d.e", &reversed), "pkg.X.e");
}

#[test]
fn remap_is_idempotent_on_clean_results() {
    let table = vec![("aa".to_string(), "b".to_string())];
    let once = apply_remap("aaxaa", &table);
    assert_eq!(once, "bxb");
    assert_eq!(apply_remap(once.as_str(), &table), once);
    // a replacement recreating its own pattern across a boundary is not idempotent
    let tricky = vec![("ab".to_string(), "b".to_string())];
    let first = apply_remap("aab", &tricky);
    assert_eq!(first, "ab");
    assert_eq!(apply_remap(first.as_str(), &tricky), "b");
}

#[test]
fn scenario_field_accessors() {
    let texts = vec!["CLASS a/b/C d/e/F\nFIELD x y I;".to_string()];
    let ix = Index::new(&texts).unwrap();
    let files = ix.write(&ix, "pkg", &no_remap());
    assert_eq!(files.len(), 1);
    assert_eq!(files[0].0, "pkg/d/e/F.java");
    let text = &files[0].1;
    assert!(text.contains("public class F"));
    assert!(text.contains("public int y() { return wrapperContained.y; }"));
    assert!(text.contains("public void y(int value) { wrapperContained.y = value; }"));
    assert!(text.contains("package pkg.d.e;"));
    assert!(text.contains("public d.e.F wrapperContained;"));
}

#[test]
fn scenario_void_method_with_one_argument() {
    let texts = vec!["CLASS a/b/C d/e/F\nMETHOD m m (I)V\nARG 0 count".to_string()];
    let ix = Index::new(&texts).unwrap();
    let files = ix.write(&ix, "pkg", &no_remap());
    assert!(files[0].1.contains("public void m(int count) { wrapperContained.m(count); }"));
}

#[test]
fn delegate_call_uses_the_readable_label() {
    let texts = vec!["CLASS a/b/C d/e/F\nMETHOD obfname nice (I)V\nARG 0 count".to_string()];
    let ix = Index::new(&texts).unwrap();
    let files = ix.write(&ix, "pkg", &no_remap());
    assert!(files[0].1.contains("public void nice(int count) { wrapperContained.nice(count); }"));
}

#[test]
fn scenario_wrapping_and_unwrapping_at_the_boundary() {
    let texts = vec![
        "CLASS aa net/minecraft/Foo".to_string(),
        "CLASS bb d/e/F\nMETHOD m m (Laa;)Laa;\nARG 0 v".to_string(),
    ];
    let ix = Index::new(&texts).unwrap();
    let files = ix.write(&ix, "pkg", &no_remap());
    let text = &files[1].1;
    assert!(text.contains(
        "public pkg.net.minecraft.Foo m(pkg.net.minecraft.Foo v) { return new pkg.net.minecraft.Foo(wrapperContained.m(v.wrapperContained)); }"
    ));
}

#[test]
fn scenario_constructor_member() {
    let texts = vec!["CLASS a/b/C d/e/F\nMETHOD q <init> (I)V\nARG 0 a".to_string()];
    let ix = Index::new(&texts).unwrap();
    let files = ix.write(&ix, "pkg", &no_remap());
    assert!(files[0].1.contains("public F(int a) { this.wrapperContained = new d.e.F(a); }"));
}

#[test]
fn output_path_applies_remap_before_slashing() {
    let c = Class::from_str("CLASS a/b/C d/e/F").unwrap();
    let table = vec![("pkg.d".to_string(), "out".to_string())];
    assert_eq!(c.output_path("pkg", &table), "out/e/F.java");
    assert_eq!(c.output_path("pkg", &no_remap()), "pkg/d/e/F.java");
}

#[test]
fn remap_rewrites_the_package_declaration() {
    let texts = vec!["CLASS a/b/C d/e/F\nFIELD x y I;".to_string()];
    let ix = Index::new(&texts).unwrap();
    let table = vec![("pkg.d".to_string(), "out".to_string())];
    let files = ix.write(&ix, "pkg", &table);
    assert!(files[0].1.contains("package out.e;"));
    assert_eq!(files[0].0, "out/e/F.java");
}
