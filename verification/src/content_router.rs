//! Derives the path under which a document's page is written.

use crate::entities::{ContentKind, RawPost};
use crate::text::{
    chars_of, find_last_char, last_position, lemma_last_position_bounds,
    lemma_last_position_unique, string_of,
};
use vstd::prelude::*;
use vstd::string::StringExecFns;

verus! {

/// Index at which the file name of `path` begins: behind its last `/`, or
/// at 0 where it has none.
pub open spec fn file_name_start(path: Seq<char>) -> int {
    last_position(path, '/') + 1
}

/// The file name of `path`: what stands behind its last `/`. It is empty
/// where `path` ends in `/`.
pub open spec fn file_name(path: Seq<char>) -> Seq<char> {
    path.skip(file_name_start(path))
}

/// Whether the file name of `path` has an extension: it holds a `.` that is
/// not its first character, and it is not the name `..`.
pub open spec fn has_extension(path: Seq<char>) -> bool {
    last_position(file_name(path), '.') > 0 && file_name(path) != seq!['.', '.']
}

/// `path` without the extension of its file name, that is without the last
/// `.` of the file name and what follows it. A path whose file name has no
/// extension stays as it is; so does a path that ends in `/` or in `/.`,
/// whose file name is empty or the name `.`.
pub open spec fn without_extension(path: Seq<char>) -> Seq<char> {
    if has_extension(path) {
        path.take(file_name_start(path) + last_position(file_name(path), '.'))
    } else {
        path
    }
}

/// The closing part of every route.
pub open spec fn index_suffix() -> Seq<char> {
    "/index.html"@
}

/// The route of the document at `og_path` under the root `posts_path`.
pub open spec fn route_of(posts_path: Seq<char>, og_path: Seq<char>) -> Seq<char> {
    posts_path + seq!['/'] + without_extension(og_path) + index_suffix()
}

/// Removing the extension shortens a path at its end only: the directories
/// before the file name stay as they are, and so does a file name without
/// a `.`.
pub proof fn lemma_without_extension_keeps_directories(path: Seq<char>)
    ensures
        without_extension(path).is_prefix_of(path),
        file_name_start(path) <= without_extension(path).len(),
        without_extension(path).take(file_name_start(path)) == path.take(file_name_start(path)),
        last_position(file_name(path), '.') < 0 ==> without_extension(path) == path,
{
    lemma_last_position_bounds(path, '/');
    lemma_last_position_bounds(file_name(path), '.');
    assert(path.take(path.len() as int) == path);
}

/// A path that ends in `/` or in `/.` is kept as it is, whatever stands
/// before.
pub proof fn lemma_path_to_a_directory_is_kept(path: Seq<char>)
    requires
        path.len() > 0,
        path.last() == '/' || (path.last() == '.' && path.len() > 1 && path[path.len() - 2] == '/'),
    ensures
        without_extension(path) == path,
{
    if path.last() == '/' {
        lemma_last_position_unique(path, '/', path.len() - 1);
        assert(file_name(path).len() == 0);
    } else {
        lemma_last_position_unique(path, '/', path.len() - 2);
        let name = file_name(path);
        assert(name.len() == 1);
        assert(name[0] == '.');
        assert(name.drop_last().len() == 0);
        assert(last_position(name, '.') == 0);
    }
}

/// Two documents under one root have the same route exactly when their
/// paths are the same once the extension is left out.
pub proof fn lemma_route_injective(posts_path: Seq<char>, a: Seq<char>, b: Seq<char>)
    ensures
        route_of(posts_path, a) == route_of(posts_path, b) <==> without_extension(a)
            == without_extension(b),
{
    let head = posts_path + seq!['/'];
    let ra = route_of(posts_path, a);
    let rb = route_of(posts_path, b);
    let xa = without_extension(a);
    let xb = without_extension(b);
    if ra == rb {
        assert(ra.len() == head.len() + xa.len() + index_suffix().len());
        assert(rb.len() == head.len() + xb.len() + index_suffix().len());
        assert forall|i: int| 0 <= i < xa.len() implies xa[i] == xb[i] by {
            assert(ra[head.len() + i] == xa[i]);
            assert(rb[head.len() + i] == xb[i]);
        }
        assert(xa =~= xb);
    }
}

/// Gives each document the path of its page.
pub struct ContentRouter {
    posts_path: String,
}

impl ContentRouter {
    /// The root under which all routes lie.
    pub closed spec fn root(&self) -> Seq<char> {
        self.posts_path@
    }

    /// A router whose routes lie under `posts_path`.
    pub fn new(posts_path: String) -> (r: Self)
        ensures
            r.root() == posts_path@,
    {
        Self { posts_path }
    }

    /// `og_path` without the extension of its file name. The file name is
    /// what stands behind the last `/`: a path that ends in `/` or in `/.`
    /// is kept as it is.
    pub fn get_path_with_no_extension(&self, og_path: &str) -> (r: String)
        ensures
            r@ == without_extension(og_path@),
    {
        let cs = chars_of(og_path);
        let n = cs.len();
        assert(cs@.subrange(0, n as int) == og_path@);
        let start = match find_last_char(&cs, 0, n, '/') {
            Some(slash) => slash + 1,
            None => 0,
        };
        assert(start == file_name_start(og_path@));
        assert(cs@.subrange(start as int, n as int) == file_name(og_path@));
        let dot = match find_last_char(&cs, start, n, '.') {
            Some(dot) => dot,
            None => {
                return String::from_str(og_path);
            },
        };
        assert(dot - start == last_position(file_name(og_path@), '.'));
        if dot == start {
            return String::from_str(og_path);
        }
        if n - start == 2 && cs[start] == '.' {
            assert(dot == start + 1);
            assert(file_name(og_path@)[0] == cs@[start as int]);
            assert(file_name(og_path@)[1] == cs@[dot as int]);
            assert(file_name(og_path@) =~= seq!['.', '.']);
            return String::from_str(og_path);
        }
        proof {
            if file_name(og_path@) == seq!['.', '.'] {
                assert(file_name(og_path@).len() == 2);
                assert(file_name(og_path@)[0] == '.');
                assert(cs@[start as int] == file_name(og_path@)[0]);
            }
            assert(cs@.subrange(0, dot as int) == og_path@.take(dot as int));
        }
        string_of(&cs, 0, dot)
    }

    /// The route of `raw_post`: the root, the document's path without its
    /// extension, and `index.html`, with a `/` between them.
    pub fn route_post(&self, raw_post: &RawPost) -> (r: String)
        ensures
            r@ == route_of(self.root(), raw_post.og_path@),
    {
        match raw_post.kind {
            ContentKind::Markdown => {
                let stem = self.get_path_with_no_extension(raw_post.og_path.as_str());
                let mut route = self.posts_path.clone();
                proof {
                    reveal_strlit("/");
                    assert("/"@ == seq!['/']);
                }
                route.append("/");
                route.append(stem.as_str());
                route.append("/index.html");
                route
            },
        }
    }
}

} // verus!
