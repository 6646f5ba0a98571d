//! The templates that the site's pages are rendered with.

use vstd::prelude::*;

verus! {

/// Name of the template that frames every page.
pub const LAYOUT_NAME: &'static str = "layout.html";

/// Name of the template of a document's page.
pub const POST_NAME: &'static str = "post.html";

/// Name of the template of the index page.
pub const INDEX_NAME: &'static str = "index.html";

/// The frame of every page: the head, the site's title, and a place for
/// the page's own content.
pub const LAYOUT_SOURCE: &'static str = "<!DOCTYPE html>
<html lang=\"en\">
    <head>
        <meta charset=\"utf-8\">
        <meta name=\"viewport\" content=\"width=device-width, initial-scale=1\">
        <title>{% block title %}{{ site.metadata.title }}{% endblock %}</title>
        <link rel=\"stylesheet\" href=\"https://unpkg.com/@picocss/pico@2.0.6/css/pico.min.css\">
    </head>
    <body>
        <main class=\"container\">
            <header>
                <h1>{{ site.metadata.title }}</h1>
            </header>
{% block content %}{% endblock %}
        </main>
    </body>
</html>
";

/// The page of one document: its title, its date and its body.
pub const POST_SOURCE: &'static str = "{% extends \"layout.html\" %}
{% block title %}{{ post.metadata.title }}{% endblock %}
{% block content %}
    <article>
        <header>
            <h2>{{ post.metadata.title }}</h2>
            <small>{{ post.metadata.date }}</small>
        </header>
        <section>
<!-- Post content -->
{{ post.content | safe }}
<!-- End of post content -->
        </section>
    </article>
{% endblock %}
";

/// The index page: one entry for each document, in order.
pub const INDEX_SOURCE: &'static str = "{% extends \"layout.html\" %}
{% block content %}
    <section>
        <ul>
{%- for post in posts %}
            <li>
                <a href=\"/{{ post.route }}\">{{ post.metadata.title }}</a>
                <small>{{ post.metadata.date }}</small>
                <p>{{ post.metadata.description }}</p>
            </li>
{%- endfor %}
        </ul>
    </section>
{% endblock %}
";

} // verus!
