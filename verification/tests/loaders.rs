use brain::loaders::document::{
    chunk_as, doc_extension, excluded_path, language_extension, load_document, FileKind,
};
use brain::loaders::local::config_extension;
use brain::loaders::{GitHubLoader, LocalLoader, TextChunker};
use std::path::PathBuf;

#[test]
fn kinds_of_file_in_a_local_directory() {
    for extension in [
        "rs", "py", "js", "ts", "jsx", "tsx", "go", "java", "c", "cpp", "h", "hpp", "rb", "php",
        "swift", "kt", "scala", "lua", "r", "zig", "toml", "yaml", "yml", "json", "sql", "sh",
        "bash",
    ] {
        assert_eq!(LocalLoader::file_kind(extension), Some(FileKind::Code));
    }
    for extension in ["md", "txt", "rst", "adoc", "org"] {
        assert_eq!(LocalLoader::file_kind(extension), Some(FileKind::Doc));
    }
    for extension in ["", "exe", "png", "rss", "mdx", "lock"] {
        assert_eq!(LocalLoader::file_kind(extension), None);
    }
    assert_eq!(LocalLoader::file_kind("RS"), Some(FileKind::Code));
    assert_eq!(LocalLoader::file_kind("Md"), Some(FileKind::Doc));
    assert_eq!(LocalLoader::file_kind("YAML"), Some(FileKind::Code));
}

#[test]
fn kinds_of_file_in_a_repository() {
    for extension in [
        "rs", "py", "js", "ts", "jsx", "tsx", "go", "java", "c", "cpp", "h", "hpp", "rb", "php",
        "swift", "kt", "scala", "lua", "r", "zig",
    ] {
        assert_eq!(GitHubLoader::file_kind(extension), Some(FileKind::Code));
    }
    for extension in ["md", "txt", "rst", "adoc", "org"] {
        assert_eq!(GitHubLoader::file_kind(extension), Some(FileKind::Doc));
    }
    for extension in ["toml", "yaml", "yml", "json", "sql", "sh", "bash", "", "exe", "RS", "Md"] {
        assert_eq!(GitHubLoader::file_kind(extension), None);
    }
}

#[test]
fn extensions_by_group() {
    assert!(language_extension("zig"));
    assert!(!language_extension("toml"));
    assert!(config_extension("toml"));
    assert!(!config_extension("md"));
    assert!(doc_extension("org"));
    assert!(!doc_extension("rs"));
}

#[test]
fn directories_that_are_not_entered() {
    assert!(GitHubLoader::excluded("/data/repo/.git/config"));
    assert!(GitHubLoader::excluded("/data/repo/target/debug/build.rs"));
    assert!(GitHubLoader::excluded("/data/repo/web/node_modules/x/index.js"));
    assert!(GitHubLoader::excluded("/data/repo/tools/__pycache__/a.py"));
    assert!(!GitHubLoader::excluded("/data/repo/src/target.rs"));
    assert!(!GitHubLoader::excluded("/data/repo/.github/workflows/ci.yml"));
    assert!(!GitHubLoader::excluded("/data/repo/target"));
    assert!(!GitHubLoader::excluded("target/debug"));
    assert!(!GitHubLoader::excluded(""));
    assert!(LocalLoader::excluded("/home/me/notes/.git/HEAD"));
    assert!(LocalLoader::excluded("/home/me/app/node_modules/a/b.js"));
    assert!(!LocalLoader::excluded("/home/me/notes/git/notes.md"));
    assert!(excluded_path("x/__pycache__/y"));
    assert!(!excluded_path("__pycache__/y"));
}

#[test]
fn where_a_repository_is_cloned() {
    assert_eq!(GitHubLoader::clone_dir_name("rust-lang", "book"), "rust-lang-book");
    assert_eq!(
        GitHubLoader::clone_address("rust-lang", "book"),
        "https://github.com/rust-lang/book.git"
    );
    let loader = GitHubLoader::new(PathBuf::from("/data/repos"), 10, 2);
    assert_eq!(loader.repos_path(), &PathBuf::from("/data/repos"));
}

#[test]
fn file_of_a_repository_becomes_a_document() {
    let loader = GitHubLoader::new(PathBuf::from("/data/repos"), 4, 0);
    let code = loader
        .load_entry(FileKind::Code, "rust-lang-book", "src/main.rs", "fn main() {\n    run();\n}\n")
        .unwrap();
    assert_eq!(code.source, "rust-lang-book");
    assert_eq!(code.path, "src/main.rs");
    assert_eq!(code.chunks.len(), 2);
    assert_eq!(code.chunks[0].content, "fn main() {\n    run();");
    assert_eq!(code.chunks[0].index, 0);
    assert_eq!(code.chunks[1].content, "fn main() {\n    run();\n}");
    assert_eq!(code.chunks[1].index, 1);
    let prose = loader
        .load_entry(FileKind::Doc, "rust-lang-book", "README.md", "# Title\n\nSome words here.\n")
        .unwrap();
    assert_eq!(prose.chunks.len(), 2);
    assert_eq!(prose.chunks[0].content, "# Title");
    assert_eq!(prose.chunks[1].content, "Some words here.");
}

#[test]
fn blank_file_is_left_out() {
    let local = LocalLoader::new(10, 0);
    assert!(local.load_entry(FileKind::Code, "notes", "a.rs", "").is_none());
    assert!(local.load_entry(FileKind::Code, "notes", "a.rs", " \n\t\n").is_none());
    assert!(local.load_entry(FileKind::Doc, "notes", "a.md", "\n\n\n\n").is_none());
    let kept = local.load_entry(FileKind::Doc, "notes", "a.md", " x ").unwrap();
    assert_eq!(kept.source, "notes");
    assert_eq!(kept.path, "a.md");
    assert_eq!(kept.chunks.len(), 1);
    assert_eq!(kept.chunks[0].content, "x");
}

#[test]
fn file_named_on_its_own() {
    let local = LocalLoader::new(100, 0);
    assert!(local.load_file("empty.rs", "rs", "  \n").is_empty());
    let code = local.load_file("main.RS", "RS", "a\n\nb\n");
    assert_eq!(code.len(), 1);
    assert_eq!(code[0].source, "main.RS");
    assert_eq!(code[0].path, "main.RS");
    assert_eq!(code[0].chunks.len(), 1);
    assert_eq!(code[0].chunks[0].content, "a\n\nb");
    let other = local.load_file("notes.xyz", "xyz", " a\n\nb \n");
    assert_eq!(other.len(), 1);
    assert_eq!(other[0].chunks.len(), 1);
    assert_eq!(other[0].chunks[0].content, "a\n\nb");
    let small = LocalLoader::new(1, 0).load_file("notes", "", "a\n\nb");
    assert_eq!(small[0].chunks.len(), 2);
}

#[test]
fn cutting_by_kind() {
    let chunker = TextChunker::new(1, 0);
    let code = chunk_as(&chunker, FileKind::Code, "a\n\nb");
    assert_eq!(code.len(), 2);
    assert_eq!(code[0].content, "a\n");
    assert_eq!(code[1].content, "a\n\nb");
    let prose = chunk_as(&chunker, FileKind::Doc, "a\n\nb");
    assert_eq!(prose.len(), 2);
    assert_eq!(prose[0].content, "a");
    assert_eq!(prose[1].content, "b");
    let document = load_document(&chunker, FileKind::Doc, "s", "p", "a\n\nb").unwrap();
    assert_eq!(document.chunks.len(), 2);
}
