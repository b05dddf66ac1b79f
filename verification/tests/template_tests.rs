use icie::template::{builtin_template, extension_dot, file_name, load, TemplateSource, BUILTIN_TEMPLATE_PSEUDOPATH};

#[test]
fn builtin_source() {
    match load(BUILTIN_TEMPLATE_PSEUDOPATH, "sol", "cxx") {
        TemplateSource::Builtin { template } => assert_eq!(template.suggested_filename, "sol.cxx"),
        TemplateSource::Custom { .. } => panic!("expected the built-in template"),
    }
}

#[test]
fn custom_source_keeps_plain_paths() {
    match load("/home/me/tpl.cpp", "main", "cpp") {
        TemplateSource::Custom { path, suggested_filename } => {
            assert_eq!(path, "/home/me/tpl.cpp");
            assert_eq!(suggested_filename.as_deref(), Some("tpl.cpp"));
        },
        TemplateSource::Builtin { .. } => panic!("expected a custom template"),
    }
    match load("~user/tpl.cpp", "main", "cpp") {
        TemplateSource::Custom { path, .. } => assert_eq!(path, "~user/tpl.cpp"),
        TemplateSource::Builtin { .. } => panic!("expected a custom template"),
    }
}

#[test]
fn custom_source_expands_home() {
    match load("~/tpl.cpp", "main", "cpp") {
        TemplateSource::Custom { path, suggested_filename } => {
            assert_eq!(suggested_filename.as_deref(), Some("tpl.cpp"));
            assert!(path.ends_with("/tpl.cpp"));
            assert!(!path.starts_with('~'));
        },
        TemplateSource::Builtin { .. } => panic!("expected a custom template"),
    }
}

#[test]
fn builtin_template_content() {
    let t = builtin_template("main", "cpp");
    assert_eq!(t.suggested_filename, "main.cpp");
    assert!(t.code.starts_with("#include <bits/stdc++.h>\nusing namespace std;\n"));
    assert!(t.code.ends_with("    cin.tie(nullptr);\n    \n}\n"));
    assert!(t.code.contains("Hi, thanks for using ICIE!"));
}

#[test]
fn extension_dots() {
    assert_eq!(extension_dot("main.cpp"), Some(4));
    assert_eq!(extension_dot("a.b.c"), Some(3));
    assert_eq!(extension_dot("żółw.rs"), Some(7));
    assert_eq!(extension_dot("Makefile"), None);
}

#[test]
fn new_file_must_not_exist() {
    assert!(icie::template::check_new_file(false).is_ok());
    assert_eq!(icie::template::check_new_file(true).unwrap_err().human(), "file already exists");
}

#[test]
fn file_names_of_paths() {
    assert_eq!(file_name("/home/me/tpl.cpp").as_deref(), Some("tpl.cpp"));
    assert_eq!(file_name("tpl.cpp").as_deref(), Some("tpl.cpp"));
    assert_eq!(file_name("dir/tpl.cpp/").as_deref(), Some("tpl.cpp"));
    assert_eq!(file_name("dir/tpl.cpp/.//").as_deref(), Some("tpl.cpp"));
    assert_eq!(file_name("./tpl.cpp").as_deref(), Some("tpl.cpp"));
    assert_eq!(file_name("dir/.."), None);
    assert_eq!(file_name("/"), None);
    assert_eq!(file_name(""), None);
    assert_eq!(file_name("."), None);
}

#[test]
fn custom_source_without_file_name() {
    match load("/tmp/..", "main", "cpp") {
        TemplateSource::Custom { path, suggested_filename } => {
            assert_eq!(path, "/tmp/..");
            assert_eq!(suggested_filename, None);
        },
        TemplateSource::Builtin { .. } => panic!("expected a custom template"),
    }
}
