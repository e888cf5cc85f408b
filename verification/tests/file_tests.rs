use inker::file_handler::FileHandler;
use inker::webserver::{
    change_message, changed_recently, extra_request_path, is_file_request, post_file_candidate,
    post_request_path, CHANGE_DURATION,
};

#[test]
fn folders_created_first() {
    assert_eq!(FileHandler::initalize(), vec!["posts", "templates"]);
}

#[test]
fn post_locations_use_the_slug() {
    assert_eq!(FileHandler::post_slug("Hello World"), "hello-world");
    assert_eq!(FileHandler::post_folder("Hello World"), "posts/hello-world");
    assert_eq!(FileHandler::post_file("Hello World"), "posts/hello-world/hello-world.md");
    assert_eq!(FileHandler::post_folder("alice@bob.com"), "posts/alice-bob-com");
    assert_eq!(FileHandler::post_slug("  --Über Café!! "), "uber-cafe");
}

#[test]
fn post_file_lies_in_the_post_folder() {
    for name in ["a", "Some Title", "x/../y", "影師嗎"] {
        let folder = FileHandler::post_folder(name);
        let file = FileHandler::post_file(name);
        assert!(file.starts_with(&format!("{}/", folder)));
        assert!(!FileHandler::post_slug(name).contains('/'));
    }
}

#[test]
fn extensions_of_file_names() {
    assert_eq!(FileHandler::file_extension("a.md"), Some("md".to_string()));
    assert_eq!(FileHandler::file_extension("a.b.png"), Some("png".to_string()));
    assert_eq!(FileHandler::file_extension("a."), Some(String::new()));
    assert_eq!(FileHandler::file_extension("a"), None);
    assert_eq!(FileHandler::file_extension(".gitignore"), None);
    assert_eq!(FileHandler::file_extension(".."), None);
    assert_eq!(FileHandler::file_extension(".x.md"), Some("md".to_string()));
}

#[test]
fn extensions_agree_with_path() {
    for n in ["a.md", "a.b.png", "a.", "a", ".gitignore", "..", ".x.md", "x..y"] {
        let ours = FileHandler::file_extension(n);
        let std = std::path::Path::new(n).extension().map(|e| e.to_str().unwrap().to_string());
        assert_eq!(ours, std, "{}", n);
    }
}

#[test]
fn what_a_copy_takes_along() {
    assert!(FileHandler::should_move("image.png", "md"));
    assert!(!FileHandler::should_move("post.md", "md"));
    assert!(FileHandler::should_move("README", "md"));
    assert!(FileHandler::should_move(".hidden", "md"));
    assert!(FileHandler::should_move("style.css", "html"));
}

#[test]
fn change_answers() {
    assert_eq!(change_message(true), "refresh");
    assert_eq!(change_message(false), "norefresh");
    assert_eq!(CHANGE_DURATION, 3);
    assert!(changed_recently(2));
    assert!(!changed_recently(3));
}

#[test]
fn request_paths() {
    assert!(is_file_request("img.png"));
    assert!(!is_file_request("my-post"));
    assert_eq!(post_file_candidate("p", "img.png"), "build/posts/p/img.png");
    assert_eq!(post_request_path("img.png", Some("p")), "build/posts/p/img.png");
    assert_eq!(post_request_path("img.png", None), "build/posts/none/img.png");
    assert_eq!(post_request_path("my-post", None), "build/posts/my-post/index.html");
    assert_eq!(extra_request_path("projects"), "build/projects/index.html");
}
