//! Turns documents into pages: the body by the Markdown converter, the
//! page around it by the template engine.

use crate::context::{
    distinct_names, field_names, field_views_of, index_context, index_view, lemma_context_view,
    lemma_table_push, lemma_table_update, named, output_views_of, post_context, post_view,
    site_context, site_view, table, views_of, Context, ContextView, FieldView,
};
use crate::entities::{ContentKind, PostOutput, RawPost, SiteConfig};
use crate::templates::{
    INDEX_NAME, INDEX_SOURCE, LAYOUT_NAME, LAYOUT_SOURCE, POST_NAME, POST_SOURCE,
};
use vstd::prelude::*;
use vstd::string::StringExecFns;

verus! {

/// Stands for `minijinja::Environment`, the store of templates. Nothing of
/// its inside is known here; `loaded_templates` names the templates in it.
#[verifier::external_type_specification]
#[verifier::external_body]
pub struct ExEnvironment<'source>(minijinja::Environment<'source>);

/// Stands for `minijinja::Error`, the error of the template engine. Nothing
/// of its inside is known here.
#[verifier::external_type_specification]
#[verifier::external_body]
pub struct ExTemplateFault(minijinja::Error);

/// Stands for `minijinja::Value`, a value that a template can read. Nothing
/// of its inside is known here; `value_view` names what it holds.
#[verifier::external_type_specification]
#[verifier::external_body]
pub struct ExTemplateValue(minijinja::Value);

/// A template environment whose templates live as long as the program.
pub type Engine = minijinja::Environment<'static>;

/// The HTML that `markdown::to_html` makes of the Markdown text `body`.
pub uninterp spec fn markdown_html(body: Seq<char>) -> Seq<char>;

/// The templates that an environment holds: the source of each, by name.
pub uninterp spec fn loaded_templates(env: Engine) -> Map<
    Seq<char>,
    Seq<char>,
>;

/// The template store that holds nothing.
pub open spec fn no_templates() -> Map<Seq<char>, Seq<char>> {
    Map::empty()
}

/// The text that minijinja renders from the template `name` of `templates`
/// with the context `context`, or `None` where it reports an error.
pub uninterp spec fn template_output(
    templates: Map<Seq<char>, Seq<char>>,
    name: Seq<char>,
    context: ContextView,
) -> Option<Seq<char>>;

/// Converts Markdown to HTML.
///
/// Trusted: this is `markdown::to_html`, which compiles its argument
/// according to CommonMark. The contract gives the result its name.
#[verifier::external_body]
fn to_html(body: &str) -> (html: String)
    ensures
        html@ == markdown_html(body@),
{
    markdown::to_html(body)
}

/// An environment without templates.
///
/// Trusted: this is `minijinja::Environment::new`, whose template store
/// starts empty.
#[verifier::external_body]
fn new_environment() -> (r: Engine)
    ensures
        loaded_templates(r) == no_templates(),
{
    minijinja::Environment::new()
}

/// Whether minijinja compiles the template `source` under the name `name`,
/// in an environment with the settings that `Environment::new` gives.
pub uninterp spec fn template_compiles(name: Seq<char>, source: Seq<char>) -> bool;

/// Loads the template `source` under the name `name`.
///
/// Trusted: this is `minijinja::Environment::add_template`, on an
/// environment that was made by `new_environment` and filled by
/// `add_template`. It compiles `source` and fails exactly where that fails,
/// which the contract gives a name. Where it succeeds the environment holds
/// `source` under `name`, in place of what it held under that name before;
/// where it fails the contract says nothing of the environment.
#[verifier::external_body]
fn add_template(
    env: &mut Engine,
    name: &'static str,
    source: &'static str,
) -> (r: Result<(), minijinja::Error>)
    ensures
        r is Ok <==> template_compiles(name@, source@),
        r is Ok ==> loaded_templates(*final(env)) == loaded_templates(*old(env)).insert(
            name@,
            source@,
        ),
{
    env.add_template(name, source)
}

/// What a value of the template engine holds.
pub uninterp spec fn value_view(value: minijinja::Value) -> ContextView;

/// The text `text` as a value of the template engine.
///
/// Trusted: this is `minijinja::Value::from` on a `&str`, which makes a
/// string value of the same text.
#[verifier::external_body]
fn text_value(text: &str) -> (r: minijinja::Value)
    ensures
        value_view(r) == ContextView::Text(text@),
{
    minijinja::Value::from(text)
}

/// The list of `items` as a value of the template engine.
///
/// Trusted: this is `minijinja::Value::from` on a `Vec` of values, which
/// makes a sequence value of the same items in the same order.
#[verifier::external_body]
fn list_value(items: Vec<minijinja::Value>) -> (r: minijinja::Value)
    ensures
        value_view(r) == ContextView::List(Seq::new(items@.len(), |i: int| value_view(items@[i]))),
{
    minijinja::Value::from(items)
}

/// The table of `fields` as a value of the template engine.
///
/// Trusted: this is the `FromIterator` of `minijinja::Value` for pairs,
/// which collects them into a map value that is ordered by name and gives
/// each name its value. No two fields may share a name: which of them such
/// a map keeps is not said.
#[verifier::external_body]
fn table_value(fields: Vec<(String, minijinja::Value)>) -> (r: minijinja::Value)
    requires
        forall|i: int, j: int| 0 <= i < j < fields@.len() ==> fields@[i].0@ != fields@[j].0@,
    ensures
        value_view(r) == table(
            Seq::new(fields@.len(), |i: int| named(fields@[i].0@, value_view(fields@[i].1))),
        ),
{
    minijinja::Value::from_iter(fields)
}

/// Renders the template `name` of `env` with the context `context`.
///
/// Trusted: this is `minijinja::Environment::get_template` followed by
/// `minijinja::Template::render`, on an environment that was made by
/// `new_environment` and filled by `add_template`. The contract names the
/// text that comes of the templates, the name and the context, and `None`
/// stands for each of the engine's errors.
#[verifier::external_body]
fn render_template(env: &Engine, name: &str, context: minijinja::Value) -> (r: Result<
    String,
    minijinja::Error,
>)
    ensures
        match r {
            Ok(text) => template_output(loaded_templates(*env), name@, value_view(context))
                == Some(text@),
            Err(_) => template_output(loaded_templates(*env), name@, value_view(context)) is None,
        },
{
    env.get_template(name)?.render(context)
}

/// The fields that named values of the template engine stand for.
pub open spec fn value_fields(values: Seq<(String, minijinja::Value)>) -> Seq<FieldView> {
    Seq::new(values.len(), |i: int| named(values[i].0@, value_view(values[i].1)))
}

/// Index of the one of `values` that has the name `name`.
fn find_named(values: &Vec<(String, minijinja::Value)>, name: &String) -> (r: Option<usize>)
    ensures
        match r {
            Some(at) => at < values.len() && values@[at as int].0@ == name@,
            None => forall|k: int| 0 <= k < values.len() ==> values@[k].0@ != name@,
        },
{
    let mut k: usize = 0;
    while k < values.len()
        invariant
            k <= values.len(),
            forall|j: int| 0 <= j < k ==> values@[j].0@ != name@,
        decreases values.len() - k,
    {
        if values[k].0 == *name {
            return Some(k);
        }
        k = k + 1;
    }
    None
}

/// The value that the template engine reads `context` as. Of two fields
/// of a table with one name only the later one is handed to the engine.
pub fn template_value(context: &Context) -> (r: minijinja::Value)
    ensures
        value_view(r) == context@,
    decreases context,
{
    match context {
        Context::Text(text) => text_value(text.as_str()),
        Context::List(items) => {
            let mut values: Vec<minijinja::Value> = Vec::new();
            let mut i: usize = 0;
            while i < items.len()
                invariant
                    *context == Context::List(*items),
                    i <= items.len(),
                    values.len() == i,
                    forall|j: int| 0 <= j < i ==> value_view(values@[j]) == items@[j]@,
                decreases items.len() - i,
            {
                assert(decreases_to!(*context => context->List_0));
                assert(decreases_to!(context->List_0 => items[i as int]));
                values.push(template_value(&items[i]));
                i = i + 1;
            }
            proof {
                lemma_context_view(*context);
                assert(Seq::new(values@.len(), |i: int| value_view(values@[i])) =~= views_of(
                    items@,
                ));
            }
            list_value(values)
        },
        Context::Table(fields) => {
            let ghost all = field_views_of(fields@);
            let mut values: Vec<(String, minijinja::Value)> = Vec::new();
            let mut i: usize = 0;
            assert(value_fields(values@) =~= all.take(0));
            while i < fields.len()
                invariant
                    *context == Context::Table(*fields),
                    all == field_views_of(fields@),
                    i <= fields.len(),
                    distinct_names(field_names(value_fields(values@))),
                    table(value_fields(values@)) == table(all.take(i as int)),
                decreases fields.len() - i,
            {
                assert(decreases_to!(*context => context->Table_0));
                assert(decreases_to!(context->Table_0 => fields[i as int]));
                assert(decreases_to!(fields[i as int] => fields[i as int].value));
                let ghost before = value_fields(values@);
                let name = fields[i].name.clone();
                let value = template_value(&fields[i].value);
                let ghost field = named(name@, value_view(value));
                proof {
                    assert(all.take(i + 1) =~= all.take(i as int).push(field));
                    lemma_table_push(all.take(i as int), field);
                }
                match find_named(&values, &name) {
                    Some(at) => {
                        proof {
                            assert(before[at as int].name == name@);
                            lemma_table_update(before, at as int, value_view(value));
                        }
                        values.set(at, (name, value));
                        assert(value_fields(values@) =~= before.update(at as int, field));
                    },
                    None => {
                        values.push((name, value));
                        proof {
                            let after = value_fields(values@);
                            assert(after =~= before.push(field));
                            lemma_table_push(before, field);
                            assert forall|a: int, b: int|
                                0 <= a < b < after.len() implies field_names(after)[a]
                                != field_names(after)[b] by {
                                if b == after.len() - 1 {
                                    assert(field_names(after)[a] == values@[a].0@);
                                } else {
                                    assert(field_names(after)[a] == field_names(before)[a]);
                                    assert(field_names(after)[b] == field_names(before)[b]);
                                }
                            }
                        }
                    },
                }
                i = i + 1;
            }
            proof {
                lemma_context_view(*context);
                assert(all.take(i as int) =~= all);
                assert forall|a: int, b: int| 0 <= a < b < values@.len() implies values@[a].0@
                    != values@[b].0@ by {
                    assert(field_names(value_fields(values@))[a] == values@[a].0@);
                    assert(field_names(value_fields(values@))[b] == values@[b].0@);
                }
                assert(Seq::new(
                    values@.len(),
                    |i: int| named(values@[i].0@, value_view(values@[i].1)),
                ) =~= value_fields(values@));
            }
            table_value(values)
        },
    }
}

/// The HTML of a Markdown body.
pub fn render_markdown_post(post_body: &str) -> (html: String)
    ensures
        html@ == markdown_html(post_body@),
{
    to_html(post_body)
}

/// The template engine could not load or render a template.
pub struct TemplateError {
    pub cause: minijinja::Error,
}

/// The text of a rendering, or `None` where it failed.
pub open spec fn rendered(r: Result<String, TemplateError>) -> Option<Seq<char>> {
    match r {
        Ok(page) => Some(page@),
        Err(_) => None,
    }
}

/// Whether minijinja compiles each of the site's templates.
pub open spec fn site_templates_compile() -> bool {
    &&& template_compiles(LAYOUT_NAME@, LAYOUT_SOURCE@)
    &&& template_compiles(POST_NAME@, POST_SOURCE@)
    &&& template_compiles(INDEX_NAME@, INDEX_SOURCE@)
}

/// The templates of the site, by name.
pub open spec fn site_templates() -> Map<Seq<char>, Seq<char>> {
    no_templates().insert(LAYOUT_NAME@, LAYOUT_SOURCE@).insert(
        POST_NAME@,
        POST_SOURCE@,
    ).insert(INDEX_NAME@, INDEX_SOURCE@)
}

/// What the site is called where no settings are given: `Blog` on a
/// document's page.
pub open spec fn default_post_site() -> ContextView {
    site_view("Blog"@, Seq::empty())
}

/// What the site is called where no settings are given: `My Blog` on the
/// index page.
pub open spec fn default_index_site() -> ContextView {
    site_view("My Blog"@, Seq::empty())
}

/// Renders pages from documents.
pub struct Rendererer {
    env: Engine,
}

impl Rendererer {
    /// The templates that this renderer holds, by name.
    pub closed spec fn templates(&self) -> Map<Seq<char>, Seq<char>> {
        loaded_templates(self.env)
    }

    /// A renderer that holds the site's templates. It fails exactly where
    /// the template engine does not compile one of them.
    pub fn new() -> (r: Result<Self, TemplateError>)
        ensures
            r is Ok <==> site_templates_compile(),
            r is Ok ==> r->Ok_0.templates() == site_templates(),
    {
        let mut env = new_environment();
        match add_template(&mut env, LAYOUT_NAME, LAYOUT_SOURCE) {
            Ok(_) => {},
            Err(cause) => {
                return Err(TemplateError { cause });
            },
        }
        match add_template(&mut env, POST_NAME, POST_SOURCE) {
            Ok(_) => {},
            Err(cause) => {
                return Err(TemplateError { cause });
            },
        }
        match add_template(&mut env, INDEX_NAME, INDEX_SOURCE) {
            Ok(_) => {},
            Err(cause) => {
                return Err(TemplateError { cause });
            },
        }
        Ok(Rendererer { env })
    }

    /// The page of `content` on the site `site`: the body as HTML and the
    /// front matter, rendered by the page template.
    pub fn render_post_for(&self, content: &RawPost, site: &SiteConfig) -> (r: Result<
        String,
        TemplateError,
    >)
        ensures
            rendered(r) == template_output(
                self.templates(),
                POST_NAME@,
                post_view(
                    markdown_html(content.body@),
                    content.front_matter.pairs(),
                    site_view(site.title@, site.description@),
                ),
            ),
    {
        let body = match content.kind {
            ContentKind::Markdown => render_markdown_post(content.body.as_str()),
        };
        let context = post_context(body.as_str(), &content.front_matter, site_context(site));
        match render_template(&self.env, POST_NAME, template_value(&context)) {
            Ok(page) => Ok(page),
            Err(cause) => Err(TemplateError { cause }),
        }
    }

    /// The page of `content` on a site called `Blog`.
    pub fn render_post(&self, content: &RawPost) -> (r: Result<String, TemplateError>)
        ensures
            rendered(r) == template_output(
                self.templates(),
                POST_NAME@,
                post_view(
                    markdown_html(content.body@),
                    content.front_matter.pairs(),
                    default_post_site(),
                ),
            ),
    {
        let site = SiteConfig { title: String::from_str("Blog"), description: String::new() };
        self.render_post_for(content, &site)
    }

    /// The index page of the site `site`, which lists `posts` in order.
    pub fn render_index_for(&self, posts: &Vec<PostOutput>, site: &SiteConfig) -> (r: Result<
        String,
        TemplateError,
    >)
        ensures
            rendered(r) == template_output(
                self.templates(),
                INDEX_NAME@,
                index_view(output_views_of(posts@), site_view(site.title@, site.description@)),
            ),
    {
        let context = index_context(posts, site_context(site));
        match render_template(&self.env, INDEX_NAME, template_value(&context)) {
            Ok(page) => Ok(page),
            Err(cause) => Err(TemplateError { cause }),
        }
    }

    /// The index page of a site called `My Blog`.
    pub fn render_index(&self, posts: &Vec<PostOutput>) -> (r: Result<String, TemplateError>)
        ensures
            rendered(r) == template_output(
                self.templates(),
                INDEX_NAME@,
                index_view(output_views_of(posts@), default_index_site()),
            ),
    {
        let site = SiteConfig { title: String::from_str("My Blog"), description: String::new() };
        self.render_index_for(posts, &site)
    }
}

} // verus!
