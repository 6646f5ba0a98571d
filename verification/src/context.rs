//! The values that a template is rendered with.

use crate::date::{date_string, date_text};
use crate::entities::{Metadata, MetadataView, PostOutput, PostOutputView, SiteConfig};
use crate::front_matter::{pairs_of, FrontMatter, Pair};
use crate::text::texts_of;
use vstd::prelude::*;
use vstd::string::StringExecFns;

verus! {

/// A value of a template context: a text, a list of values, or a table of
/// named values.
pub enum Context {
    Text(String),
    List(Vec<Context>),
    Table(Vec<Field>),
}

/// One named value of a table.
pub struct Field {
    pub name: String,
    pub value: Context,
}

/// A `Context` as it is seen in contracts. A table is the mapping from
/// the names of its fields to their values: the order of its fields does
/// not count, and of two fields with one name the later one does.
pub enum ContextView {
    Text(Seq<char>),
    List(Seq<ContextView>),
    Table(Map<Seq<char>, ContextView>),
}

/// A `Field` as it is seen in contracts.
pub struct FieldView {
    pub name: Seq<char>,
    pub value: ContextView,
}

/// Index of the last of `names` that is `name`, or `-1` when none is.
pub open spec fn last_named(names: Seq<Seq<char>>, name: Seq<char>) -> int
    decreases names.len(),
{
    if names.len() == 0 {
        -1
    } else if names.last() == name {
        names.len() - 1
    } else {
        last_named(names.drop_last(), name)
    }
}

/// The names of `fields`, in order.
pub open spec fn names_of(fields: Seq<Field>) -> Seq<Seq<char>> {
    Seq::new(fields.len(), |i: int| fields[i].name@)
}

/// The names of `fields`, in order.
pub open spec fn field_names(fields: Seq<FieldView>) -> Seq<Seq<char>> {
    Seq::new(fields.len(), |i: int| fields[i].name)
}

/// The table with the fields `fields`.
pub open spec fn table(fields: Seq<FieldView>) -> ContextView {
    ContextView::Table(
        Map::new(
            |name: Seq<char>| last_named(field_names(fields), name) >= 0,
            |name: Seq<char>| fields[last_named(field_names(fields), name)].value,
        ),
    )
}

/// `last_named` is `-1` or lies within the names, holds `name` where it is
/// not `-1`, and has no `name` behind it.
pub proof fn lemma_last_named(names: Seq<Seq<char>>, name: Seq<char>)
    ensures
        -1 <= last_named(names, name) < names.len(),
        last_named(names, name) >= 0 ==> names[last_named(names, name)] == name,
        forall|j: int| last_named(names, name) < j < names.len() ==> names[j] != name,
    decreases names.len(),
{
    if names.len() != 0 && names.last() != name {
        let front = names.drop_last();
        lemma_last_named(front, name);
        assert forall|j: int| last_named(names, name) < j < names.len() implies names[j]
            != name by {
            if j < names.len() - 1 {
                assert(names[j] == front[j]);
            }
        }
    }
}

/// `last_named` is the only index that holds `name` and has no `name`
/// behind it.
pub proof fn lemma_last_named_unique(names: Seq<Seq<char>>, name: Seq<char>, at: int)
    requires
        -1 <= at < names.len(),
        at >= 0 ==> names[at] == name,
        forall|j: int| at < j < names.len() ==> names[j] != name,
    ensures
        last_named(names, name) == at,
{
    lemma_last_named(names, name);
}

/// Whether no two of `names` are the same.
pub open spec fn distinct_names(names: Seq<Seq<char>>) -> bool {
    forall|i: int, j: int| 0 <= i < j < names.len() ==> names[i] != names[j]
}

/// A table with one more field at its end gives that field's name that
/// field's value, and is the table without it otherwise.
pub proof fn lemma_table_push(fields: Seq<FieldView>, field: FieldView)
    ensures
        table(fields.push(field)) == ContextView::Table(
            table(fields)->Table_0.insert(field.name, field.value),
        ),
{
    let more = fields.push(field);
    let names = field_names(fields);
    let more_names = field_names(more);
    assert(more_names =~= names.push(field.name));
    assert(more_names.drop_last() =~= names);
    let lhs = table(more)->Table_0;
    let rhs = table(fields)->Table_0.insert(field.name, field.value);
    assert forall|name: Seq<char>| lhs.contains_key(name) == rhs.contains_key(name) && (
    lhs.contains_key(name) ==> lhs[name] == rhs[name]) by {
        lemma_last_named(names, name);
        if name != field.name {
            assert(last_named(more_names, name) == last_named(names, name));
            if last_named(names, name) >= 0 {
                assert(more[last_named(names, name)] == fields[last_named(names, name)]);
            }
        }
    }
    assert(lhs =~= rhs);
}

/// In a table whose names differ, giving the field at `at` another value
/// gives its name that value, and leaves the table as it is otherwise.
pub proof fn lemma_table_update(fields: Seq<FieldView>, at: int, value: ContextView)
    requires
        distinct_names(field_names(fields)),
        0 <= at < fields.len(),
    ensures
        distinct_names(field_names(fields.update(at, named(fields[at].name, value)))),
        table(fields.update(at, named(fields[at].name, value))) == ContextView::Table(
            table(fields)->Table_0.insert(fields[at].name, value),
        ),
{
    let after = fields.update(at, named(fields[at].name, value));
    let names = field_names(fields);
    assert(field_names(after) =~= names);
    let lhs = table(after)->Table_0;
    let rhs = table(fields)->Table_0.insert(fields[at].name, value);
    assert forall|name: Seq<char>| #[trigger]
        lhs.contains_key(name) == rhs.contains_key(name) by {
        lemma_last_named(names, name);
        if name == fields[at].name {
            assert(names[at] == name);
        }
    }
    assert forall|name: Seq<char>| #[trigger] lhs.contains_key(name) implies lhs[name]
        == rhs[name] by {
        lemma_last_named(names, name);
        let found = last_named(names, name);
        assert(names[found] == name);
        if name == fields[at].name {
            assert(names[at] == name);
            if found > at {
                assert(names[at] != names[found]);
            }
            assert(found == at);
            assert(after[at].value == value);
        } else {
            assert(found != at);
            assert(after[found] == fields[found]);
        }
    }
    assert(lhs =~= rhs);
}

impl View for Context {
    type V = ContextView;

    open spec fn view(&self) -> ContextView
        decreases self,
    {
        match self {
            Context::Text(text) => ContextView::Text(text@),
            Context::List(items) => ContextView::List(
                Seq::new(
                    items@.len(),
                    |i: int|
                        if 0 <= i < items@.len() {
                            items@[i].view()
                        } else {
                            ContextView::Text(Seq::empty())
                        },
                ),
            ),
            Context::Table(fields) => ContextView::Table(
                Map::new(
                    |name: Seq<char>| last_named(names_of(fields@), name) >= 0,
                    |name: Seq<char>|
                        {
                            let i = last_named(names_of(fields@), name);
                            if 0 <= i < fields@.len() {
                                fields@[i].value.view()
                            } else {
                                ContextView::Text(Seq::empty())
                            }
                        },
                ),
            ),
        }
    }
}

/// The views of `items`, in order.
pub open spec fn views_of(items: Seq<Context>) -> Seq<ContextView> {
    Seq::new(items.len(), |i: int| items[i]@)
}

/// The views of `fields`, in order.
pub open spec fn field_views_of(fields: Seq<Field>) -> Seq<FieldView> {
    Seq::new(fields.len(), |i: int| FieldView { name: fields[i].name@, value: fields[i].value@ })
}

/// The field that gives `value` the name `name`.
pub open spec fn named(name: Seq<char>, value: ContextView) -> FieldView {
    FieldView { name, value }
}

/// A list's view is the list of its items' views, and a table's view the
/// table of its fields' views.
pub proof fn lemma_context_view(context: Context)
    ensures
        context matches Context::List(items) ==> context@ == ContextView::List(views_of(items@)),
        context matches Context::Table(fields) ==> context@ == table(field_views_of(fields@)),
{
    match context {
        Context::Text(_) => {},
        Context::List(items) => {
            assert(context@->List_0 =~= views_of(items@));
        },
        Context::Table(fields) => {
            let views = field_views_of(fields@);
            assert(names_of(fields@) =~= field_names(views));
            assert forall|name: Seq<char>| #[trigger]
                last_named(field_names(views), name) < fields@.len() by {
                lemma_last_named(field_names(views), name);
            }
            assert(context@->Table_0 =~= table(views)->Table_0);
        },
    }
}

/// The list of the texts `items`.
pub open spec fn text_list(items: Seq<Seq<char>>) -> ContextView {
    ContextView::List(Seq::new(items.len(), |i: int| ContextView::Text(items[i])))
}

/// The table that gives each key of `pairs` its value as a text.
pub open spec fn text_table(pairs: Seq<Pair>) -> ContextView {
    table(Seq::new(pairs.len(), |i: int| named(pairs[i].0, ContextView::Text(pairs[i].1))))
}

/// What a template sees of the site: its title and its description, under
/// `metadata`.
pub open spec fn site_view(title: Seq<char>, description: Seq<char>) -> ContextView {
    let metadata = table(
        seq![
            named("title"@, ContextView::Text(title)),
            named("description"@, ContextView::Text(description)),
        ],
    );
    table(seq![named("metadata"@, metadata)])
}

/// What the page template of a document sees: under `post` the body as
/// HTML and the front matter, and under `site` the site.
pub open spec fn post_view(
    html: Seq<char>,
    front_matter: Seq<Pair>,
    site: ContextView,
) -> ContextView {
    let post = table(
        seq![
            named("content"@, ContextView::Text(html)),
            named("metadata"@, text_table(front_matter)),
        ],
    );
    table(seq![named("post"@, post), named("site"@, site)])
}

/// What a template sees of a document's metadata.
pub open spec fn metadata_view(metadata: MetadataView) -> ContextView {
    table(
        seq![
            named("title"@, ContextView::Text(metadata.title)),
            named("description"@, ContextView::Text(metadata.description)),
            named("date"@, ContextView::Text(date_text(metadata.date))),
            named("tags"@, text_list(metadata.tags)),
            named("extras"@, text_table(metadata.extras)),
        ],
    )
}

/// What a template sees of a finished page.
pub open spec fn output_view(post: PostOutputView) -> ContextView {
    table(
        seq![
            named("route"@, ContextView::Text(post.route)),
            named("metadata"@, metadata_view(post.metadata)),
            named("rendered_content"@, ContextView::Text(post.rendered_content)),
        ],
    )
}

/// The view of each page of `posts`.
pub open spec fn output_views_of(posts: Seq<PostOutput>) -> Seq<PostOutputView> {
    Seq::new(posts.len(), |i: int| posts[i]@)
}

/// What the index template sees: under `posts` the finished pages in
/// order, and under `site` the site.
pub open spec fn index_view(posts: Seq<PostOutputView>, site: ContextView) -> ContextView {
    let pages = ContextView::List(Seq::new(posts.len(), |i: int| output_view(posts[i])));
    table(seq![named("posts"@, pages), named("site"@, site)])
}

/// The text `s` as a context value.
pub fn text_context(s: &str) -> (r: Context)
    ensures
        r@ == ContextView::Text(s@),
{
    Context::Text(String::from_str(s))
}

/// The table with the fields `fields`.
pub fn table_context(fields: Vec<Field>) -> (r: Context)
    ensures
        r@ == table(field_views_of(fields@)),
{
    let r = Context::Table(fields);
    proof {
        lemma_context_view(r);
    }
    r
}

/// The list with the items `items`.
pub fn list_context(items: Vec<Context>) -> (r: Context)
    ensures
        r@ == ContextView::List(views_of(items@)),
{
    let r = Context::List(items);
    proof {
        lemma_context_view(r);
    }
    r
}

/// The list of the texts `items`.
pub fn text_list_context(items: &Vec<String>) -> (r: Context)
    ensures
        r@ == text_list(texts_of(items@)),
{
    let mut out: Vec<Context> = Vec::new();
    let mut i: usize = 0;
    while i < items.len()
        invariant
            i <= items.len(),
            out.len() == i,
            forall|j: int| 0 <= j < i ==> out@[j]@ == ContextView::Text(items@[j]@),
        decreases items.len() - i,
    {
        out.push(text_context(items[i].as_str()));
        i = i + 1;
    }
    assert(views_of(out@) =~= text_list(texts_of(items@))->List_0);
    list_context(out)
}

/// The table that gives each key of `entries` its value as a text.
pub fn text_table_context(entries: &Vec<(String, String)>) -> (r: Context)
    ensures
        r@ == text_table(pairs_of(entries@)),
{
    let mut out: Vec<Field> = Vec::new();
    let mut i: usize = 0;
    while i < entries.len()
        invariant
            i <= entries.len(),
            out.len() == i,
            forall|j: int|
                0 <= j < i ==> out@[j].name@ == entries@[j].0@ && out@[j].value@
                    == ContextView::Text(entries@[j].1@),
        decreases entries.len() - i,
    {
        out.push(
            Field { name: entries[i].0.clone(), value: text_context(entries[i].1.as_str()) },
        );
        i = i + 1;
    }
    assert(field_views_of(out@) =~= Seq::new(
        entries@.len(),
        |i: int| named(pairs_of(entries@)[i].0, ContextView::Text(pairs_of(entries@)[i].1)),
    ));
    table_context(out)
}

/// The field that gives `value` the name `name`.
pub fn field(name: &str, value: Context) -> (r: Field)
    ensures
        r.name@ == name@,
        r.value == value,
{
    Field { name: String::from_str(name), value }
}

/// The table of the two fields `first` and `second`.
fn table_of_two(first: (&str, Context), second: (&str, Context)) -> (r: Context)
    ensures
        r@ == table(seq![named(first.0@, first.1@), named(second.0@, second.1@)]),
{
    let mut fields: Vec<Field> = Vec::new();
    fields.push(field(first.0, first.1));
    fields.push(field(second.0, second.1));
    assert(field_views_of(fields@) =~= seq![
        named(first.0@, first.1@),
        named(second.0@, second.1@),
    ]);
    table_context(fields)
}

/// What a template sees of the site.
pub fn site_context(site: &SiteConfig) -> (r: Context)
    ensures
        r@ == site_view(site.title@, site.description@),
{
    let metadata = table_of_two(
        ("title", text_context(site.title.as_str())),
        ("description", text_context(site.description.as_str())),
    );
    let mut fields: Vec<Field> = Vec::new();
    fields.push(field("metadata", metadata));
    assert(field_views_of(fields@) =~= seq![named("metadata"@, metadata@)]);
    table_context(fields)
}

/// What the page template of a document sees.
pub fn post_context(html: &str, front_matter: &FrontMatter, site: Context) -> (r: Context)
    ensures
        r@ == post_view(html@, front_matter.pairs(), site@),
{
    let post = table_of_two(
        ("content", text_context(html)),
        ("metadata", text_table_context(front_matter.entries())),
    );
    table_of_two(("post", post), ("site", site))
}

/// What a template sees of a document's metadata.
pub fn metadata_context(metadata: &Metadata) -> (r: Context)
    ensures
        r@ == metadata_view(metadata@),
{
    let date = date_string(metadata.date);
    let mut fields: Vec<Field> = Vec::new();
    fields.push(field("title", text_context(metadata.title.as_str())));
    fields.push(field("description", text_context(metadata.description.as_str())));
    fields.push(field("date", text_context(date.as_str())));
    fields.push(field("tags", text_list_context(&metadata.tags)));
    fields.push(field("extras", text_table_context(metadata.extras.entries())));
    assert(field_views_of(fields@) =~= seq![
        named("title"@, ContextView::Text(metadata.title@)),
        named("description"@, ContextView::Text(metadata.description@)),
        named("date"@, ContextView::Text(date_text(metadata.date))),
        named("tags"@, text_list(texts_of(metadata.tags@))),
        named("extras"@, text_table(metadata.extras.pairs())),
    ]);
    table_context(fields)
}

/// What a template sees of a finished page.
pub fn output_context(post: &PostOutput) -> (r: Context)
    ensures
        r@ == output_view(post@),
{
    let mut fields: Vec<Field> = Vec::new();
    fields.push(field("route", text_context(post.route.as_str())));
    fields.push(field("metadata", metadata_context(&post.metadata)));
    fields.push(field("rendered_content", text_context(post.rendered_content.as_str())));
    assert(field_views_of(fields@) =~= seq![
        named("route"@, ContextView::Text(post.route@)),
        named("metadata"@, metadata_view(post.metadata@)),
        named("rendered_content"@, ContextView::Text(post.rendered_content@)),
    ]);
    table_context(fields)
}

/// What the index template sees.
pub fn index_context(posts: &Vec<PostOutput>, site: Context) -> (r: Context)
    ensures
        r@ == index_view(output_views_of(posts@), site@),
{
    let mut items: Vec<Context> = Vec::new();
    let mut i: usize = 0;
    while i < posts.len()
        invariant
            i <= posts.len(),
            items.len() == i,
            forall|j: int| 0 <= j < i ==> items@[j]@ == output_view(posts@[j]@),
        decreases posts.len() - i,
    {
        items.push(output_context(&posts[i]));
        i = i + 1;
    }
    let list = list_context(items);
    let ghost views = output_views_of(posts@);
    assert(list@->List_0 =~= Seq::new(views.len(), |i: int| output_view(views[i])));
    table_of_two(("posts", list), ("site", site))
}

} // verus!
