use workspace_snapshot::error::ScaffoldError;
use workspace_snapshot::scaffold::{
    replace_bytes, scaffold, Template, TemplateFile, TemplateRegistry,
};

fn b(s: &str) -> Vec<u8> {
    s.as_bytes().to_vec()
}

fn rust_registry() -> TemplateRegistry {
    TemplateRegistry {
        templates: vec![
            Template {
                id: b("default"),
                placeholder: b("__NAME__"),
                files: vec![TemplateFile {
                    path: b("README.txt"),
                    contents: b("# __NAME__\n"),
                }],
            },
            Template {
                id: b("rust"),
                placeholder: b("__NAME__"),
                files: vec![TemplateFile {
                    path: b("__NAME__/main.txt"),
                    contents: b("Hello __NAME__"),
                }],
            },
        ],
    }
}

#[test]
fn scaffold_substitutes_name_in_paths_and_contents() {
    let reg = rust_registry();
    let files = scaffold(&reg, &b("rust"), &b("myapp"), &b("/tmp/out"), false)
        .expect("known template scaffolds");
    assert_eq!(files.len(), 1);
    assert_eq!(files[0].path, b("/tmp/out/myapp/main.txt"));
    assert_eq!(files[0].contents, b("Hello myapp"));
}

#[test]
fn scaffold_unknown_template_fails_without_output() {
    let reg = rust_registry();
    let r = scaffold(&reg, &b("nonexistent"), &b("x"), &b("/tmp/y"), false);
    match r {
        Err(ScaffoldError::UnknownTemplate) => {}
        _ => panic!("expected UnknownTemplate"),
    }
}

#[test]
fn scaffold_refuses_nonempty_target() {
    let reg = rust_registry();
    let r = scaffold(&reg, &b("rust"), &b("myapp"), &b("/tmp/out"), true);
    match r {
        Err(ScaffoldError::TargetExists) => {}
        _ => panic!("expected TargetExists"),
    }
}

#[test]
fn scaffold_default_template() {
    let reg = rust_registry();
    let files = scaffold(&reg, &b("default"), &b("proj"), &b("/work"), false).expect("default");
    assert_eq!(files.len(), 1);
    assert_eq!(files[0].path, b("/work/README.txt"));
    assert_eq!(files[0].contents, b("# proj\n"));
}

#[test]
fn replace_handles_repeats_and_absence() {
    assert_eq!(replace_bytes(&b("x__N__y__N__z"), &b("__N__"), &b("q")), b("xqyqz"));
    assert_eq!(replace_bytes(&b("nothing here"), &b("__N__"), &b("q")), b("nothing here"));
    assert_eq!(replace_bytes(&b("__N____N__"), &b("__N__"), &b("ab")), b("abab"));
    assert_eq!(replace_bytes(&b(""), &b("__N__"), &b("q")), b(""));
    // An empty pattern replaces nothing.
    assert_eq!(replace_bytes(&b("abc"), &b(""), &b("q")), b("abc"));
    // Replacement may contain the pattern without rescanning it.
    assert_eq!(replace_bytes(&b("aa"), &b("a"), &b("aa")), b("aaaa"));
}
