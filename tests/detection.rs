use function_locator::{detect_language, first_recognised, language_globs, SourceLanguage};

#[test]
fn languages_are_told_by_file_name() {
    assert_eq!(detect_language("src/main.rs"), Ok(SourceLanguage::Rust));
    assert_eq!(detect_language("cmd/server.go"), Ok(SourceLanguage::Go));
    assert_eq!(detect_language("index.js"), Ok(SourceLanguage::JavaScript));
    assert_eq!(detect_language("lib/module.mjs"), Ok(SourceLanguage::JavaScript));
    assert_eq!(detect_language("config.cjs"), Ok(SourceLanguage::JavaScript));
    assert_eq!(detect_language("app.ts"), Ok(SourceLanguage::TypeScript));
}

#[test]
fn other_files_are_not_supported() {
    assert_eq!(detect_language("script.py"), Err("not a supported file"));
    assert_eq!(detect_language("main.rs.bak"), Err("not a supported file"));
    assert_eq!(detect_language("README"), Err("not a supported file"));
}

#[test]
fn globs_of_each_language() {
    assert_eq!(language_globs(&SourceLanguage::Go), vec!["*.go"]);
    assert_eq!(language_globs(&SourceLanguage::JavaScript), vec!["*.cjs", "*.js", "*.mjs"]);
    assert_eq!(language_globs(&SourceLanguage::Rust), vec!["*.rs"]);
    assert_eq!(language_globs(&SourceLanguage::TypeScript), vec!["*.ts"]);
}

#[test]
fn the_first_recognised_language_wins() {
    assert_eq!(first_recognised(true, true, true, true), Ok(SourceLanguage::Rust));
    assert_eq!(first_recognised(false, true, true, false), Ok(SourceLanguage::Go));
    assert_eq!(first_recognised(false, false, true, true), Ok(SourceLanguage::JavaScript));
    assert_eq!(first_recognised(false, false, false, true), Ok(SourceLanguage::TypeScript));
    assert!(first_recognised(false, false, false, false).is_err());
}

#[test]
fn language_names() {
    assert_eq!(SourceLanguage::Go.name(), "go");
    assert_eq!(SourceLanguage::JavaScript.name(), "javascript");
    assert_eq!(SourceLanguage::Rust.name(), "rust");
    assert_eq!(SourceLanguage::TypeScript.name(), "typescript");
}
