//! Builds a whole site from its documents: parses each, gives it a route,
//! renders its page, reads its metadata, and renders the index page.

use crate::content_parser::{
    date_reading, document_parts, front_matter_pairs, metadata_of, parse_content,
    parse_metadata,
};
use crate::content_render::{markdown_html, template_output, Rendererer, TemplateError};
use crate::content_router::{route_of, ContentRouter};
use crate::context::{index_view, output_views_of, post_view, site_view, ContextView};
use crate::entities::{
    MetadataError, MetadataErrorView, MetadataView, ParseError, PostOutput, PostOutputView,
    RawPost, SiteConfig,
};
use crate::front_matter::{pairs_of, FrontMatter, Pair};
use crate::templates::{INDEX_NAME, POST_NAME};
use crate::text::join_lines;
use vstd::prelude::*;

verus! {

/// A finished site: the index page and the pages of the documents, in the
/// order of the documents.
pub struct Site {
    pub index: String,
    pub posts: Vec<PostOutput>,
}

/// A `Site` as it is seen in contracts.
pub struct SiteView {
    pub index: Seq<char>,
    pub posts: Seq<PostOutputView>,
}

impl View for Site {
    type V = SiteView;

    open spec fn view(&self) -> SiteView {
        SiteView { index: self.index@, posts: output_views_of(self.posts@) }
    }
}

/// Why a document that was parsed gave no page.
pub enum PostError {
    /// The template engine failed on the document's page.
    Template(TemplateError),
    /// The document's front matter gave no metadata.
    Metadata(MetadataError),
}

/// A `PostError` as it is seen in contracts.
pub enum PostFault {
    Template,
    Metadata(MetadataErrorView),
}

impl View for PostError {
    type V = PostFault;

    open spec fn view(&self) -> PostFault {
        match self {
            PostError::Template(_) => PostFault::Template,
            PostError::Metadata(e) => PostFault::Metadata(e@),
        }
    }
}

/// Why a site could not be built. The number counts the documents from 0.
pub enum BuildError {
    /// This document could not be parsed.
    Parse(usize, ParseError),
    /// This document gave no page.
    Post(usize, PostError),
    /// The template engine failed on the index page.
    Index(TemplateError),
}

/// A `BuildError` as it is seen in contracts.
pub enum BuildFault {
    Parse(int, ParseError),
    Post(int, PostFault),
    Index,
}

impl View for BuildError {
    type V = BuildFault;

    open spec fn view(&self) -> BuildFault {
        match self {
            BuildError::Parse(at, error) => BuildFault::Parse(*at as int, *error),
            BuildError::Post(at, error) => BuildFault::Post(*at as int, error@),
            BuildError::Index(_) => BuildFault::Index,
        }
    }
}

/// What a build works with besides the documents: the templates, the root
/// of the routes, and what the templates see of the site.
pub struct Setting {
    pub templates: Map<Seq<char>, Seq<char>>,
    pub root: Seq<char>,
    pub site: ContextView,
}

/// The setting that a router, a renderer and the site's settings make up.
pub open spec fn setting_of(
    router: ContentRouter,
    renderer: Rendererer,
    site: SiteConfig,
) -> Setting {
    Setting {
        templates: renderer.templates(),
        root: router.root(),
        site: site_view(site.title@, site.description@),
    }
}

/// Index of the first of `documents` that cannot be parsed, or
/// `documents.len()` when all of them can. A document is its path and its
/// text.
pub open spec fn first_unparsable(documents: Seq<Pair>) -> int
    decreases documents.len(),
{
    if documents.len() == 0 || document_parts(documents[0].1) is None {
        0
    } else {
        1 + first_unparsable(documents.drop_first())
    }
}

/// What a parsed document gives, where `path` is its path, `body` its body
/// and `entries` the entries of its front matter: its page with route and
/// metadata, or the reason why not. The page is rendered before the
/// metadata is read, so a failure of the template engine is reported
/// before one of the metadata.
pub open spec fn post_from(
    setting: Setting,
    path: Seq<char>,
    body: Seq<char>,
    entries: Seq<Pair>,
) -> Result<PostOutputView, PostFault> {
    match template_output(
        setting.templates,
        POST_NAME@,
        post_view(markdown_html(body), entries, setting.site),
    ) {
        None => Err(PostFault::Template),
        Some(page) => match metadata_of(entries, date_reading(entries)) {
            Err(e) => Err(PostFault::Metadata(e)),
            Ok(metadata) => Ok(
                PostOutputView {
                    route: route_of(setting.root, path),
                    metadata,
                    rendered_content: page,
                },
            ),
        },
    }
}

/// What a document that can be parsed gives. A document is its path and
/// its text.
pub open spec fn post_of(setting: Setting, document: Pair) -> Result<PostOutputView, PostFault> {
    let parts = document_parts(document.1)->0;
    post_from(
        setting,
        document.0,
        join_lines(parts.body),
        front_matter_pairs(parts.front_matter),
    )
}

/// Index of the first of `documents` that gives no page, or
/// `documents.len()` when each of them gives one.
pub open spec fn first_faulty(setting: Setting, documents: Seq<Pair>) -> int
    decreases documents.len(),
{
    if documents.len() == 0 || post_of(setting, documents[0]) is Err {
        0
    } else {
        1 + first_faulty(setting, documents.drop_first())
    }
}

/// The pages of `documents`, in order.
pub open spec fn posts_of(setting: Setting, documents: Seq<Pair>) -> Seq<PostOutputView> {
    Seq::new(documents.len(), |i: int| post_of(setting, documents[i])->Ok_0)
}

/// The site that `documents` give. All documents are parsed before any
/// page is made, so a document that cannot be parsed is reported before a
/// document that gives no page, and the index page is rendered last.
pub open spec fn site_of(setting: Setting, documents: Seq<Pair>) -> Result<SiteView, BuildFault> {
    let unparsable = first_unparsable(documents);
    let faulty = first_faulty(setting, documents);
    if 0 <= unparsable < documents.len() {
        Err(BuildFault::Parse(unparsable, ParseError::NoFrontMatter))
    } else if 0 <= faulty < documents.len() {
        Err(BuildFault::Post(faulty, post_of(setting, documents[faulty])->Err_0))
    } else {
        let posts = posts_of(setting, documents);
        match template_output(setting.templates, INDEX_NAME@, index_view(posts, setting.site)) {
            Some(index) => Ok(SiteView { index, posts }),
            None => Err(BuildFault::Index),
        }
    }
}

/// The outcome of making a page, as it is seen in contracts.
pub open spec fn post_outcome(r: Result<PostOutput, PostError>) -> Result<
    PostOutputView,
    PostFault,
> {
    match r {
        Ok(post) => Ok(post@),
        Err(e) => Err(e@),
    }
}

/// The outcome of a build, as it is seen in contracts.
pub open spec fn build_outcome(r: Result<Site, BuildError>) -> Result<SiteView, BuildFault> {
    match r {
        Ok(site) => Ok(site@),
        Err(e) => Err(e@),
    }
}

/// `first_unparsable` lies within the documents, holds a document that
/// cannot be parsed where it lies before the end, and has none before it.
pub proof fn lemma_first_unparsable(documents: Seq<Pair>)
    ensures
        0 <= first_unparsable(documents) <= documents.len(),
        first_unparsable(documents) < documents.len() ==> document_parts(
            documents[first_unparsable(documents)].1,
        ) is None,
        forall|i: int|
            0 <= i < first_unparsable(documents) ==> document_parts(
                (#[trigger] documents[i]).1,
            ) is Some,
    decreases documents.len(),
{
    if documents.len() != 0 && document_parts(documents[0].1) is Some {
        let rest = documents.drop_first();
        lemma_first_unparsable(rest);
        assert forall|i: int| 0 <= i < first_unparsable(documents) implies document_parts(
            (#[trigger] documents[i]).1,
        ) is Some by {
            if i > 0 {
                assert(documents[i] == rest[i - 1]);
            }
        }
    }
}

/// `first_faulty` lies within the documents, holds a document that gives no
/// page where it lies before the end, and has none before it.
pub proof fn lemma_first_faulty(setting: Setting, documents: Seq<Pair>)
    ensures
        0 <= first_faulty(setting, documents) <= documents.len(),
        first_faulty(setting, documents) < documents.len() ==> post_of(
            setting,
            documents[first_faulty(setting, documents)],
        ) is Err,
        forall|i: int|
            0 <= i < first_faulty(setting, documents) ==> post_of(
                setting,
                #[trigger] documents[i],
            ) is Ok,
    decreases documents.len(),
{
    if documents.len() != 0 && post_of(setting, documents[0]) is Ok {
        let rest = documents.drop_first();
        lemma_first_faulty(setting, rest);
        assert forall|i: int| 0 <= i < first_faulty(setting, documents) implies post_of(
            setting,
            #[trigger] documents[i],
        ) is Ok by {
            if i > 0 {
                assert(documents[i] == rest[i - 1]);
            }
        }
    }
}

/// A site has one page for each document, in the order of the documents,
/// and each page lies under the route of its document.
pub proof fn lemma_one_page_per_document(setting: Setting, documents: Seq<Pair>)
    requires
        site_of(setting, documents) is Ok,
    ensures
        site_of(setting, documents)->Ok_0.posts.len() == documents.len(),
        forall|i: int|
            0 <= i < documents.len() ==> (#[trigger] site_of(
                setting,
                documents,
            )->Ok_0.posts[i]).route == route_of(setting.root, documents[i].0),
{
    lemma_first_unparsable(documents);
    lemma_first_faulty(setting, documents);
    let posts = posts_of(setting, documents);
    assert forall|i: int| 0 <= i < documents.len() implies (#[trigger] posts[i]).route
        == route_of(setting.root, documents[i].0) by {
        assert(post_of(setting, documents[i]) is Ok);
    }
}

/// Building again from the same documents in the same setting gives the
/// same outcome: the same pages with the same text, or the same failure.
pub proof fn lemma_build_is_repeatable(
    setting: Setting,
    documents: Seq<Pair>,
    first: Result<Site, BuildError>,
    second: Result<Site, BuildError>,
)
    requires
        build_outcome(first) == site_of(setting, documents),
        build_outcome(second) == site_of(setting, documents),
    ensures
        build_outcome(first) == build_outcome(second),
        first is Ok ==> second is Ok && first->Ok_0@ == second->Ok_0@,
{
}

/// Puts a page together from its route, its rendered text and the front
/// matter of its document, whose metadata it reads.
pub fn finish_post(route: String, page: String, front_matter: &FrontMatter) -> (r: Result<
    PostOutput,
    MetadataError,
>)
    ensures
        match r {
            Ok(post) => {
                &&& post.route@ == route@
                &&& post.rendered_content@ == page@
                &&& metadata_of(front_matter.pairs(), date_reading(front_matter.pairs())) == Ok::<
                    MetadataView,
                    MetadataErrorView,
                >(post.metadata@)
            },
            Err(e) => metadata_of(front_matter.pairs(), date_reading(front_matter.pairs()))
                == Err::<MetadataView, MetadataErrorView>(e@),
        },
{
    match parse_metadata(front_matter.clone()) {
        Ok(metadata) => Ok(PostOutput { route, metadata, rendered_content: page }),
        Err(e) => Err(e),
    }
}

/// Makes the page of a parsed document: gives it its route, renders its
/// body and its page, and reads its metadata.
pub fn build_post(
    post: &RawPost,
    router: &ContentRouter,
    renderer: &Rendererer,
    site: &SiteConfig,
) -> (r: Result<PostOutput, PostError>)
    ensures
        post_outcome(r) == post_from(
            setting_of(*router, *renderer, *site),
            post.og_path@,
            post.body@,
            post.front_matter.pairs(),
        ),
{
    let route = router.route_post(post);
    let page = match renderer.render_post_for(post, site) {
        Ok(page) => page,
        Err(e) => {
            return Err(PostError::Template(e));
        },
    };
    match finish_post(route, page, &post.front_matter) {
        Ok(output) => Ok(output),
        Err(e) => Err(PostError::Metadata(e)),
    }
}

/// Builds the site of `documents`, each of them a path and a text. All
/// documents are parsed first; then each gets its page, in order; the
/// index page, which lists all pages, comes last. The first failure ends
/// the build.
pub fn build_site(
    documents: &Vec<(String, String)>,
    router: &ContentRouter,
    renderer: &Rendererer,
    site: &SiteConfig,
) -> (r: Result<Site, BuildError>)
    ensures
        build_outcome(r) == site_of(setting_of(*router, *renderer, *site), pairs_of(documents@)),
        r is Ok ==> r->Ok_0.posts.len() == documents.len(),
{
    let ghost setting = setting_of(*router, *renderer, *site);
    let ghost docs = pairs_of(documents@);
    let n = documents.len();
    let mut parsed: Vec<RawPost> = Vec::new();
    let mut i: usize = 0;
    while i < n
        invariant
            n == documents.len(),
            docs == pairs_of(documents@),
            i <= n,
            parsed.len() == i,
            forall|j: int|
                0 <= j < i ==> {
                    &&& document_parts((#[trigger] docs[j]).1) is Some
                    &&& parsed@[j].og_path@ == docs[j].0
                    &&& parsed@[j].body@ == join_lines(document_parts(docs[j].1)->0.body)
                    &&& parsed@[j].front_matter.pairs() == front_matter_pairs(
                        document_parts(docs[j].1)->0.front_matter,
                    )
                },
        decreases n - i,
    {
        assert(docs[i as int] == (documents@[i as int].0@, documents@[i as int].1@));
        match parse_content(documents[i].0.as_str(), documents[i].1.as_str()) {
            Ok(post) => {
                parsed.push(post);
            },
            Err(error) => {
                proof {
                    lemma_first_unparsable(docs);
                    let first = first_unparsable(docs);
                    if first > i {
                        assert(document_parts(docs[i as int].1) is Some);
                    }
                }
                return Err(BuildError::Parse(i, error));
            },
        }
        i = i + 1;
    }
    proof {
        lemma_first_unparsable(docs);
    }
    let mut posts: Vec<PostOutput> = Vec::new();
    let mut k: usize = 0;
    while k < n
        invariant
            n == documents.len(),
            docs == pairs_of(documents@),
            setting == setting_of(*router, *renderer, *site),
            parsed.len() == n,
            k <= n,
            posts.len() == k,
            first_unparsable(docs) == n,
            forall|j: int|
                0 <= j < n ==> {
                    &&& document_parts((#[trigger] docs[j]).1) is Some
                    &&& parsed@[j].og_path@ == docs[j].0
                    &&& parsed@[j].body@ == join_lines(document_parts(docs[j].1)->0.body)
                    &&& parsed@[j].front_matter.pairs() == front_matter_pairs(
                        document_parts(docs[j].1)->0.front_matter,
                    )
                },
            forall|j: int| 0 <= j < k ==> post_of(setting, #[trigger] docs[j]) == Ok::<
                PostOutputView,
                PostFault,
            >(posts@[j]@),
        decreases n - k,
    {
        assert(docs[k as int].1 == documents@[k as int].1@);
        match build_post(&parsed[k], router, renderer, site) {
            Ok(post) => {
                posts.push(post);
            },
            Err(error) => {
                proof {
                    lemma_first_faulty(setting, docs);
                    let first = first_faulty(setting, docs);
                    if first > k {
                        assert(post_of(setting, docs[k as int]) is Ok);
                    }
                }
                return Err(BuildError::Post(k, error));
            },
        }
        k = k + 1;
    }
    proof {
        lemma_first_faulty(setting, docs);
        let first = first_faulty(setting, docs);
        if first < n {
            assert(post_of(setting, docs[first]) is Ok);
        }
        assert(output_views_of(posts@) =~= posts_of(setting, docs));
    }
    match renderer.render_index_for(&posts, site) {
        Ok(index) => Ok(Site { index, posts }),
        Err(error) => Err(BuildError::Index(error)),
    }
}

} // verus!
