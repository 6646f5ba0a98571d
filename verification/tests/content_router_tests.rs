use crustdown::content_router::ContentRouter;
use crustdown::entities::{ContentKind, RawPost};
use crustdown::front_matter::FrontMatter;

#[test]
fn get_path_with_no_extension_test() {
    let router = ContentRouter::new("posts".to_string());
    let path = router.get_path_with_no_extension("test.md");
    assert_eq!(path, "test");
}

#[test]
fn test_route() {
    let router = ContentRouter::new("posts".to_string());
    let content = RawPost {
        og_path: "test.md".to_string(),
        front_matter: FrontMatter::new(),
        body: "test".to_string(),
        kind: ContentKind::Markdown,
    };
    let path = router.route_post(&content);
    assert_eq!(path, "posts/test/index.html");
}

#[test]
fn test_route_with_nested_path() {
    let router = ContentRouter::new("hello-world".to_string());
    let content = RawPost {
        og_path: "test/nested/post.md".to_string(),
        front_matter: FrontMatter::new(),
        body: "test".to_string(),
        kind: ContentKind::Markdown,
    };
    let path = router.route_post(&content);
    assert_eq!(path, "hello-world/test/nested/post/index.html");
}

#[test]
fn path_without_extension_is_unchanged() {
    let router = ContentRouter::new("posts".to_string());
    assert_eq!(router.get_path_with_no_extension("README"), "README");
    assert_eq!(router.get_path_with_no_extension("notes/README"), "notes/README");
    assert_eq!(router.get_path_with_no_extension(""), "");
}

#[test]
fn only_the_final_extension_is_removed() {
    let router = ContentRouter::new("posts".to_string());
    assert_eq!(router.get_path_with_no_extension("archive.tar.gz"), "archive.tar");
    assert_eq!(router.get_path_with_no_extension("a/b.c/d.md"), "a/b.c/d");
    assert_eq!(router.get_path_with_no_extension("post."), "post");
}

#[test]
fn a_dot_in_a_directory_is_no_extension() {
    let router = ContentRouter::new("posts".to_string());
    assert_eq!(router.get_path_with_no_extension("a.b/post"), "a.b/post");
    assert_eq!(router.get_path_with_no_extension("a.b/"), "a.b/");
}

#[test]
fn a_leading_dot_is_no_extension() {
    let router = ContentRouter::new("posts".to_string());
    assert_eq!(router.get_path_with_no_extension(".hidden"), ".hidden");
    assert_eq!(router.get_path_with_no_extension("dir/.hidden"), "dir/.hidden");
    assert_eq!(router.get_path_with_no_extension(".hidden.md"), ".hidden");
    assert_eq!(router.get_path_with_no_extension(".."), "..");
    assert_eq!(router.get_path_with_no_extension("a/.."), "a/..");
    assert_eq!(router.get_path_with_no_extension("..."), "..");
}

#[test]
fn stripping_agrees_with_std_on_file_paths() {
    let router = ContentRouter::new("posts".to_string());
    for path in [
        "test.md", "test/nested/post.md", "README", "archive.tar.gz", ".hidden", ".hidden.md",
        "a.b/post", "post.", "..", "...", "a/b/..", "x/.y/z.txt", "",
    ] {
        let expected = std::path::Path::new(path)
            .with_extension("")
            .to_str()
            .unwrap()
            .to_string();
        assert_eq!(router.get_path_with_no_extension(path), expected, "{:?}", path);
    }
}

#[test]
fn route_of_a_path_without_extension() {
    let router = ContentRouter::new("posts".to_string());
    let content = RawPost {
        og_path: "about".to_string(),
        front_matter: FrontMatter::new(),
        body: String::new(),
        kind: ContentKind::Markdown,
    };
    assert_eq!(router.route_post(&content), "posts/about/index.html");
}

#[test]
fn routes_differ_where_the_stems_differ() {
    let router = ContentRouter::new("posts".to_string());
    let post = |path: &str| RawPost {
        og_path: path.to_string(),
        front_matter: FrontMatter::new(),
        body: String::new(),
        kind: ContentKind::Markdown,
    };
    assert_ne!(router.route_post(&post("a.md")), router.route_post(&post("b.md")));
    assert_eq!(router.route_post(&post("a.md")), router.route_post(&post("a.txt")));
}

#[test]
fn a_path_to_a_directory_is_kept() {
    let router = ContentRouter::new("posts".to_string());
    assert_eq!(router.get_path_with_no_extension("a/post.md/"), "a/post.md/");
    assert_eq!(router.get_path_with_no_extension("a/post.md/."), "a/post.md/.");
    assert_eq!(router.get_path_with_no_extension("/"), "/");
}
