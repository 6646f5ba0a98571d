//! Decides where each page of a site is written.

use crate::content_router::{lemma_route_injective, route_of, without_extension};
use crate::front_matter::Pair;
use crate::site::{lemma_one_page_per_document, site_of, Setting, Site, SiteView};
use vstd::prelude::*;
use vstd::string::StringExecFns;

verus! {

/// A file to write: where, and what.
pub struct SiteFile {
    pub path: String,
    pub content: String,
}

/// A `SiteFile` as it is seen in contracts.
pub struct SiteFileView {
    pub path: Seq<char>,
    pub content: Seq<char>,
}

impl View for SiteFile {
    type V = SiteFileView;

    open spec fn view(&self) -> SiteFileView {
        SiteFileView { path: self.path@, content: self.content@ }
    }
}

/// The view of each file of `files`.
pub open spec fn file_views_of(files: Seq<SiteFile>) -> Seq<SiteFileView> {
    Seq::new(files.len(), |i: int| files[i]@)
}

/// The place of `path_from_root` under the directory `output_dir`.
pub open spec fn path_under(output_dir: Seq<char>, path_from_root: Seq<char>) -> Seq<char> {
    output_dir + seq!['/'] + path_from_root
}

/// Name of the index page's file.
pub open spec fn index_file_name() -> Seq<char> {
    "index.html"@
}

/// The files of `site` under `output_dir`: the index page first, then one
/// file for each page, in order, each under its route.
pub open spec fn site_files(output_dir: Seq<char>, site: SiteView) -> Seq<SiteFileView> {
    seq![SiteFileView { path: path_under(output_dir, index_file_name()), content: site.index }]
        + Seq::new(
        site.posts.len(),
        |i: int|
            SiteFileView {
                path: path_under(output_dir, site.posts[i].route),
                content: site.posts[i].rendered_content,
            },
    )
}

/// Two places under one directory are the same only where the paths from
/// the root are.
pub proof fn lemma_path_under_injective(output_dir: Seq<char>, a: Seq<char>, b: Seq<char>)
    ensures
        path_under(output_dir, a) == path_under(output_dir, b) <==> a == b,
{
    let head = output_dir + seq!['/'];
    let pa = path_under(output_dir, a);
    let pb = path_under(output_dir, b);
    if pa == pb {
        assert(pa.len() == head.len() + a.len());
        assert(pb.len() == head.len() + b.len());
        assert forall|i: int| 0 <= i < a.len() implies a[i] == b[i] by {
            assert(pa[head.len() + i] == a[i]);
            assert(pb[head.len() + i] == b[i]);
        }
        assert(a =~= b);
    }
}

/// A site of documents whose paths differ once the extension is left out
/// is written as one file for each document and one for the index page,
/// and no two of these files share a place.
pub proof fn lemma_one_file_per_document(
    setting: Setting,
    documents: Seq<Pair>,
    output_dir: Seq<char>,
)
    requires
        site_of(setting, documents) is Ok,
        forall|i: int, j: int|
            0 <= i < j < documents.len() ==> without_extension(documents[i].0)
                != without_extension(documents[j].0),
    ensures
        site_files(output_dir, site_of(setting, documents)->Ok_0).len() == documents.len() + 1,
        forall|a: int, b: int|
            0 <= a < b <= documents.len() ==> site_files(
                output_dir,
                site_of(setting, documents)->Ok_0,
            )[a].path != site_files(output_dir, site_of(setting, documents)->Ok_0)[b].path,
{
    let site = site_of(setting, documents)->Ok_0;
    let files = site_files(output_dir, site);
    lemma_one_page_per_document(setting, documents);
    reveal_strlit("index.html");
    reveal_strlit("/index.html");
    assert forall|a: int, b: int| 0 <= a < b <= documents.len() implies files[a].path
        != files[b].path by {
        let route_b = site.posts[b - 1].route;
        assert(files[b].path == path_under(output_dir, route_b));
        assert(route_b == route_of(setting.root, documents[b - 1].0));
        if a == 0 {
            assert(files[0].path == path_under(output_dir, index_file_name()));
            lemma_path_under_injective(output_dir, index_file_name(), route_b);
            assert(route_b.len() > index_file_name().len());
        } else {
            let route_a = site.posts[a - 1].route;
            assert(files[a].path == path_under(output_dir, route_a));
            assert(route_a == route_of(setting.root, documents[a - 1].0));
            lemma_path_under_injective(output_dir, route_a, route_b);
            lemma_route_injective(setting.root, documents[a - 1].0, documents[b - 1].0);
        }
    }
}

/// Writes a site under one directory.
pub struct ContentWriter<'a> {
    output_dir: &'a str,
}

impl<'a> ContentWriter<'a> {
    /// The directory under which this writer places its files.
    pub closed spec fn dir(&self) -> Seq<char> {
        self.output_dir@
    }

    /// A writer that places its files under `output_dir`.
    pub fn new(output_dir: &'a str) -> (r: Self)
        ensures
            r.dir() == output_dir@,
    {
        Self { output_dir }
    }

    /// The directory under which this writer places its files.
    pub fn output_dir(&self) -> (r: &'a str)
        ensures
            r@ == self.dir(),
    {
        self.output_dir
    }

    /// The place of `path_from_root` under the writer's directory.
    pub fn path_of(&self, path_from_root: &str) -> (r: String)
        ensures
            r@ == path_under(self.dir(), path_from_root@),
    {
        let mut path = String::from_str(self.output_dir);
        proof {
            reveal_strlit("/");
            assert("/"@ == seq!['/']);
        }
        path.append("/");
        path.append(path_from_root);
        path
    }

    /// The files that make up `site`, in the order in which they are
    /// written: the index page, then each page under its route.
    pub fn files(&self, site: &Site) -> (r: Vec<SiteFile>)
        ensures
            r.len() == site.posts.len() + 1,
            file_views_of(r@) == site_files(self.dir(), site@),
    {
        let mut out: Vec<SiteFile> = Vec::new();
        out.push(SiteFile { path: self.path_of("index.html"), content: site.index.clone() });
        let mut i: usize = 0;
        while i < site.posts.len()
            invariant
                i <= site.posts.len(),
                out.len() == i + 1,
                out@[0]@ == (SiteFileView {
                    path: path_under(self.dir(), index_file_name()),
                    content: site.index@,
                }),
                forall|j: int|
                    0 <= j < i ==> (#[trigger] out@[j + 1])@ == (SiteFileView {
                        path: path_under(self.dir(), site.posts@[j].route@),
                        content: site.posts@[j].rendered_content@,
                    }),
            decreases site.posts.len() - i,
        {
            let post = &site.posts[i];
            out.push(
                SiteFile {
                    path: self.path_of(post.route.as_str()),
                    content: post.rendered_content.clone(),
                },
            );
            i = i + 1;
        }
        proof {
            let want = site_files(self.dir(), site@);
            let have = file_views_of(out@);
            assert(have.len() == want.len());
            assert forall|k: int| 0 <= k < have.len() implies have[k] == want[k] by {
                if k > 0 {
                    assert(out@[(k - 1) + 1]@ == want[k]);
                }
            }
            assert(have =~= want);
        }
        out
    }
}

} // verus!
