use rnagent::request::edit_body;
use rnagent::request::edit_url;
use rnagent::request::endpoint;
use rnagent::request::scaffold_body;
use rnagent::request::scaffold_url;

#[test]
fn endpoints_trim_trailing_slashes() {
    assert_eq!(scaffold_url("http://localhost:3000"), "http://localhost:3000/generate");
    assert_eq!(scaffold_url("http://localhost:3000/"), "http://localhost:3000/generate");
    assert_eq!(scaffold_url("http://localhost:3000///"), "http://localhost:3000/generate");
    assert_eq!(edit_url("https://api.example.com/"), "https://api.example.com/edit");
    assert_eq!(endpoint("x", "/y"), "x/y");
}

#[test]
fn scaffold_body_is_exact_json() {
    let urls = vec!["https://a/1.png".to_string(), "https://a/2.png".to_string()];
    let body = scaffold_body("/p", "make it", "app", "#fff", &urls);
    assert_eq!(
        body,
        "{\"project_path\":\"/p\",\"user_prompt\":\"make it\",\"app_name\":\"app\",\
         \"brand_color\":\"#fff\",\"image_urls\":[\"https://a/1.png\",\"https://a/2.png\"]}"
    );

    let body = scaffold_body("/p", "", "", "", &Vec::new());
    assert_eq!(
        body,
        "{\"project_path\":\"/p\",\"user_prompt\":\"\",\"app_name\":\"\",\
         \"brand_color\":\"\",\"image_urls\":[]}"
    );
}

#[test]
fn edit_body_escapes_content() {
    let body = edit_body("/p", "src/a.ts", "line1\nline2\t\"x\" \\ \u{1}", "fix");
    assert_eq!(
        body,
        "{\"project_path\":\"/p\",\"relative_path\":\"src/a.ts\",\
         \"content\":\"line1\\nline2\\t\\\"x\\\" \\\\ \\u0001\",\"user_prompt\":\"fix\"}"
    );
}
