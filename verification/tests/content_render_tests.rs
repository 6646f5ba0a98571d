use crustdown::content_render::{render_markdown_post, Rendererer};
use crustdown::entities::{ContentKind, RawPost};
use crustdown::front_matter::FrontMatter;

fn dedent(text: &str) -> String {
    let indent = text
        .lines()
        .filter(|line| !line.trim().is_empty())
        .map(|line| line.len() - line.trim_start().len())
        .min()
        .unwrap_or(0);
    text.split('\n')
        .map(|line| if line.trim().is_empty() { "" } else { &line[indent..] })
        .collect::<Vec<&str>>()
        .join("\n")
}

#[test]
fn test_render_markdown_post() {
    let post_body = "Hello, world!";
    let rendered_post = render_markdown_post(post_body);
    assert_eq!(rendered_post, "<p>Hello, world!</p>");
}

#[test]
fn test_render_markdown_post_with_title() {
    let post_body = "# Test\nHello, world!";
    let rendered_post = render_markdown_post(post_body);
    assert_eq!(rendered_post, "<h1>Test</h1>\n<p>Hello, world!</p>");
}

#[test]
fn test_render_markdown_post_with_liquid() {
    let post_body = dedent(
        "
        # Liquid! {{num | minus: 2}}

        ```ruby
        puts 'Hello, world!'
        ```
        ",
    );
    let post_body = post_body.trim();

    let expected_post_body = dedent(
        "
        <h1>Liquid! {{num | minus: 2}}</h1>
        <pre><code class=\"language-ruby\">puts 'Hello, world!'
        </code></pre>
        ",
    );
    let expected_post_body = expected_post_body.trim();

    let rendered_post = render_markdown_post(post_body);
    assert_eq!(rendered_post, expected_post_body);
}

#[test]
fn test_render_post() {
    let renderer = Rendererer::new().ok().unwrap();
    let mut metadata = FrontMatter::new();
    metadata.insert("title".to_string(), "¡Hola mundo!".to_string());
    let post = RawPost {
        og_path: "test.md".to_string(),
        front_matter: metadata,
        body: "Hello, world!".to_string(),
        kind: ContentKind::Markdown,
    };
    let rendered_post = renderer.render_post(&post).ok().unwrap();
    assert_eq!(
        rendered_post,
        "<!DOCTYPE html>
<html lang=\"en\">
    <head>
        <meta charset=\"utf-8\">
        <meta name=\"viewport\" content=\"width=device-width, initial-scale=1\">
        <title>¡Hola mundo!</title>
        <link rel=\"stylesheet\" href=\"https://unpkg.com/@picocss/pico@2.0.6/css/pico.min.css\">
    </head>
    <body>
        <main class=\"container\">
            <header>
                <h1>Blog</h1>
            </header>

    <article>
        <header>
            <h2>¡Hola mundo!</h2>
            <small></small>
        </header>
        <section>
<!-- Post content -->
<p>Hello, world!</p>
<!-- End of post content -->
        </section>
    </article>

        </main>
    </body>
</html>"
    );
}

#[test]
fn renderer_is_made_of_templates_that_compile() {
    assert!(Rendererer::new().is_ok());
}
