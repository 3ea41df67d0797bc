use rnagent::project::FileNode;
use rnagent::project::extension_of;
use rnagent::project::file_node;
use rnagent::project::folder_node;
use rnagent::project::get_lang;
use rnagent::project::is_ignored;
use rnagent::project::lang_of_ext;
use rnagent::project::rename_app_json;
use rnagent::project::rename_package_json;
use rnagent::project::replace_all;
use rnagent::project::terminal_script;

#[test]
fn ignored_directories() {
    assert!(is_ignored("node_modules"));
    assert!(is_ignored(".vscode"));
    assert!(is_ignored(".expo"));
    assert!(is_ignored(".git"));
    assert!(is_ignored(".DS_Store"));
    assert!(!is_ignored("src"));
    assert!(!is_ignored(".github"));
}

#[test]
fn extensions() {
    assert_eq!(extension_of("a.b.c"), "c");
    assert_eq!(extension_of("index.tsx"), "tsx");
    assert_eq!(extension_of("noext"), "noext");
    assert_eq!(extension_of("trailing."), "");
    assert_eq!(extension_of(""), "");
}

#[test]
fn language_tags() {
    assert_eq!(get_lang("App.TSX"), Some("tsx".to_string()));
    assert_eq!(get_lang("main.ts"), Some("ts".to_string()));
    assert_eq!(get_lang("styles.css"), Some("css".to_string()));
    assert_eq!(get_lang("yarn.lock"), Some("lock".to_string()));
    assert_eq!(get_lang("README.md"), Some("md".to_string()));
    assert_eq!(get_lang("binary.exe"), None);
    assert_eq!(get_lang("noext"), None);
    assert_eq!(lang_of_ext("yaml"), Some("yaml".to_string()));
    assert_eq!(lang_of_ext("YAML"), None);
}

#[test]
fn nodes() {
    let f = file_node("app.json".to_string(), "app.json".to_string());
    assert_eq!(f.node_type, "file");
    assert_eq!(f.lang, Some("json".to_string()));
    assert!(f.children.is_none());

    let children: Vec<FileNode> = vec![f];
    let d = folder_node("src".to_string(), "src".to_string(), children);
    assert_eq!(d.node_type, "folder");
    assert!(d.lang.is_none());
    assert_eq!(d.children.as_ref().unwrap().len(), 1);
}

#[test]
fn replace_all_cases() {
    assert_eq!(replace_all("aXbXc", "X", "--"), "a--b--c");
    assert_eq!(replace_all("none here", "X", "-"), "none here");
    assert_eq!(replace_all("XX", "X", ""), "");
    assert_eq!(replace_all("aaa", "aa", "b"), "ba");
}

#[test]
fn terminal_script_escapes_quotes() {
    assert_eq!(
        terminal_script("/home/dev/it's here"),
        "tell application \"Terminal\" to do script \"cd '/home/dev/it\\'s here'\" activate"
    );
}

#[test]
fn template_renaming() {
    let app_json = "{\n  \"name\": \"expo-template\",\n  \"slug\": \"expo-template\",\n  \"scheme\": \"expo-template\",\n  \"other\": \"expo-template\"\n}\n";
    let out = rename_app_json(app_json, "myapp");
    assert_eq!(
        out,
        "{\n  \"name\": \"myapp\",\n  \"slug\": \"myapp\",\n  \"scheme\": \"myapp\",\n  \"other\": \"expo-template\"\n}\n"
    );

    let pkg = "{\"name\": \"expo-template\", \"version\": \"1.0.0\"}";
    assert_eq!(
        rename_package_json(pkg, "myapp"),
        "{\"name\": \"myapp\", \"version\": \"1.0.0\"}"
    );
}
