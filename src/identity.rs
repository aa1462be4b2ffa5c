//! Identity of model definitions: the reverse-domain namespace identifier
//! derived from a namespace URL, and the workspace path of a model file
//! relative to the discovery root.

use crate::text::{
    join, join_texts, split_on, split_text, text_equal, texts_of, trim, trimmed, Strip,
};
use vstd::prelude::*;

verus! {

/// What a URL parser reports of a URL that the logic reads.
pub struct UrlParts {
    pub domain: Option<String>,
    pub path_segments: Option<Vec<String>>,
}

pub open spec fn opt_texts(o: Option<Vec<String>>) -> Option<Seq<Seq<char>>> {
    match o {
        Some(v) => Some(texts_of(v@)),
        None => None,
    }
}

/// Whether a text parses as an absolute URL.
pub uninterp spec fn url_is_valid(s: Seq<char>) -> bool;

/// The domain of the URL that a text parses to, if it has one.
pub uninterp spec fn url_domain(s: Seq<char>) -> Option<Seq<char>>;

/// The path segments of the URL that a text parses to, unless it cannot be a
/// base.
pub uninterp spec fn url_path_segments(s: Seq<char>) -> Option<Seq<Seq<char>>>;

/// Relies on `url::Url::parse` to parse the text, then on `Url::domain` and
/// `Url::path_segments` to read the parsed URL.
#[verifier::external_body]
fn parse_url(input: &str) -> (r: Option<UrlParts>)
    ensures
        r is Some <==> url_is_valid(input@),
        r is Some ==> r->Some_0.domain.deep_view() == url_domain(input@),
        r is Some ==> opt_texts(r->Some_0.path_segments) == url_path_segments(input@),
{
    let url = url::Url::parse(input).ok()?;
    Some(UrlParts {
        domain: url.domain().map(String::from),
        path_segments: url.path_segments().map(|p| p.map(String::from).collect()),
    })
}

/// Why a namespace URL gives no reverse-domain identifier.
#[derive(Debug, Clone, Copy, PartialEq, Eq, Structural)]
pub enum RdnnError {
    /// The text is not a URL.
    InvalidUrl,
    /// The URL has no path segments.
    CannotBeABase,
    /// The URL has no domain.
    NoDomain,
}

/// Path segments without surrounding white space, empty ones left out.
pub open spec fn clean_segments(ss: Seq<Seq<char>>) -> Seq<Seq<char>>
    decreases ss.len(),
{
    if ss.len() == 0 {
        Seq::empty()
    } else {
        let p = clean_segments(ss.drop_last());
        let t = trimmed(ss.last(), Strip::WhiteSpace);
        if t.len() > 0 {
            p.push(t)
        } else {
            p
        }
    }
}

/// The labels of the domain in reverse order, then the path segments, joined
/// with `/`.
pub open spec fn rdnn_of(domain: Seq<char>, segments: Seq<Seq<char>>) -> Seq<char> {
    join(split_on(domain, '.').reverse() + clean_segments(segments), "/"@)
}

/// The reverse-domain identifier of a namespace URL, or why it has none.
pub open spec fn rdnn_result(input: Seq<char>) -> Result<Seq<char>, RdnnError> {
    if !url_is_valid(input) {
        Err(RdnnError::InvalidUrl)
    } else {
        parts_rdnn(url_domain(input), url_path_segments(input))
    }
}

/// The reverse-domain identifier of a parsed URL, or why it has none.
pub open spec fn parts_rdnn(domain: Option<Seq<char>>, segments: Option<Seq<Seq<char>>>) -> Result<
    Seq<char>,
    RdnnError,
> {
    if segments is None {
        Err(RdnnError::CannotBeABase)
    } else if domain is None {
        Err(RdnnError::NoDomain)
    } else {
        Ok(rdnn_of(domain->Some_0, segments->Some_0))
    }
}

/// Builds the reverse-domain identifier of a namespace URL.
pub fn to_rdnn(input: &str) -> (r: Result<String, RdnnError>)
    ensures
        r is Ok ==> rdnn_result(input@) == Ok::<Seq<char>, RdnnError>(r->Ok_0@),
        r is Err ==> rdnn_result(input@) == Err::<Seq<char>, RdnnError>(r->Err_0),
        r is Ok ==> url_is_valid(input@) && url_path_segments(input@) is Some && url_domain(
            input@,
        ) is Some && r->Ok_0@ == rdnn_of(
            url_domain(input@)->Some_0,
            url_path_segments(input@)->Some_0,
        ),
        r == Err::<String, RdnnError>(RdnnError::InvalidUrl) <==> !url_is_valid(input@),
        r == Err::<String, RdnnError>(RdnnError::CannotBeABase) <==> url_is_valid(input@)
            && url_path_segments(input@) is None,
        r == Err::<String, RdnnError>(RdnnError::NoDomain) <==> url_is_valid(input@)
            && url_path_segments(input@) is Some && url_domain(input@) is None,
{
    match parse_url(input) {
        Some(parts) => rdnn_from_parts(&parts),
        None => Err(RdnnError::InvalidUrl),
    }
}

/// Builds the reverse-domain identifier from the domain and path segments of
/// a parsed URL.
pub fn rdnn_from_parts(parts: &UrlParts) -> (r: Result<String, RdnnError>)
    ensures
        r is Ok ==> parts_rdnn(parts.domain.deep_view(), opt_texts(parts.path_segments)) == Ok::<
            Seq<char>,
            RdnnError,
        >(r->Ok_0@),
        r is Err ==> parts_rdnn(parts.domain.deep_view(), opt_texts(parts.path_segments)) == Err::<
            Seq<char>,
            RdnnError,
        >(r->Err_0),
{
    let segments = match &parts.path_segments {
        Some(s) => s,
        None => return Err(RdnnError::CannotBeABase),
    };
    let domain = match &parts.domain {
        Some(d) => d,
        None => return Err(RdnnError::NoDomain),
    };
    let labels = split_text(domain.as_str(), '.');
    let ghost ls = texts_of(labels@);
    let mut all: Vec<String> = Vec::new();
    let n = labels.len();
    let mut i: usize = 0;
    while i < n
        invariant
            n == labels@.len(),
            ls == texts_of(labels@),
            i <= n,
            all@.len() == i,
            forall|j: int| 0 <= j < i ==> #[trigger] all@[j]@ == ls[n - 1 - j],
        decreases n - i,
    {
        all.push(labels[n - 1 - i].clone());
        i = i + 1;
    }
    proof {
        assert(texts_of(all@) =~= ls.reverse());
    }
    let ghost rev = ls.reverse();
    let ghost ss = texts_of(segments@);
    let m = segments.len();
    let mut k: usize = 0;
    proof {
        assert(ss.take(0) =~= Seq::<Seq<char>>::empty());
        assert(rev + clean_segments(ss.take(0)) =~= rev);
    }
    while k < m
        invariant
            m == segments@.len(),
            ss == texts_of(segments@),
            k <= m,
            texts_of(all@) == rev + clean_segments(ss.take(k as int)),
        decreases m - k,
    {
        let t = trim(segments[k].as_str(), Strip::WhiteSpace);
        proof {
            let p = ss.take(k + 1);
            assert(p.drop_last() =~= ss.take(k as int));
            assert(p.last() == segments@[k as int]@);
        }
        if t.unicode_len() > 0 {
            let ghost before = texts_of(all@);
            all.push(t);
            proof {
                assert(texts_of(all@) =~= before.push(t@));
                assert(rev + clean_segments(ss.take(k as int)).push(t@) =~= (rev + clean_segments(
                    ss.take(k as int),
                )).push(t@));
            }
        }
        k = k + 1;
    }
    proof {
        assert(ss.take(m as int) =~= ss);
    }
    Ok(join_texts(&all, "/"))
}

/// The parent of a path, if it has one.
pub uninterp spec fn path_parent_of(s: Seq<char>) -> Option<Seq<char>>;

/// Relies on `std::path::Path::parent`: the path without its final
/// component.
#[verifier::external_body]
fn path_parent(name: &str) -> (r: Option<String>)
    ensures
        r.deep_view() == path_parent_of(name@),
{
    std::path::Path::new(name).parent().map(|p| p.to_string_lossy().to_string())
}

/// The file name of a path without its extension, if it has a file name.
pub uninterp spec fn path_file_stem_of(s: Seq<char>) -> Option<Seq<char>>;

/// Relies on `std::path::Path::file_stem`: the final component without its
/// extension.
#[verifier::external_body]
fn path_file_stem(name: &str) -> (r: Option<String>)
    ensures
        r.deep_view() == path_file_stem_of(name@),
{
    std::path::Path::new(name).file_stem().map(|p| p.to_string_lossy().to_string())
}

/// A path relative to a base path that is a prefix of it, by components.
pub uninterp spec fn path_strip_prefix_of(path: Seq<char>, base: Seq<char>) -> Option<Seq<char>>;

/// Relies on `std::path::Path::strip_prefix`: the path relative to `base`,
/// if `base` is a prefix of it.
#[verifier::external_body]
fn path_strip_prefix(path: &str, base: &str) -> (r: Option<String>)
    ensures
        r.deep_view() == path_strip_prefix_of(path@, base@),
{
    std::path::Path::new(path).strip_prefix(base).ok().map(|p| p.to_string_lossy().to_string())
}

/// The directory part of a file path.
pub fn dir_name(name: &str) -> (r: Option<String>)
    ensures
        r.deep_view() == path_parent_of(name@),
{
    path_parent(name)
}

/// The file name of a path without its extension.
pub fn file_stem(name: &str) -> (r: Option<String>)
    ensures
        r.deep_view() == path_file_stem_of(name@),
{
    path_file_stem(name)
}

/// A text with a leading prefix removed, or unchanged when it does not start
/// with the prefix.
pub open spec fn without_prefix(full: Seq<char>, prefix: Seq<char>) -> Seq<char> {
    if prefix.len() <= full.len() && full.subrange(0, prefix.len() as int) == prefix {
        full.subrange(prefix.len() as int, full.len() as int)
    } else {
        full
    }
}

/// Removes the root directory name from the front of a directory name.
pub fn dir_name_stripped_prefix(full_name: &str, root_dir_name: &str) -> (r: String)
    ensures
        r@ == without_prefix(full_name@, root_dir_name@),
{
    let lf = full_name.unicode_len();
    let lr = root_dir_name.unicode_len();
    if lr <= lf {
        let head = full_name.substring_char(0, lr);
        if text_equal(head, root_dir_name) {
            return full_name.substring_char(lr, lf).to_string();
        }
    }
    full_name.to_string()
}

/// The workspace of a model file: its directory relative to the root
/// directory, with `/` between the parts and none at either end.
pub open spec fn workspace_of(root: Seq<char>, file: Seq<char>) -> Option<Seq<char>> {
    match path_parent_of(file) {
        Some(dir) => match path_strip_prefix_of(dir, root) {
            Some(rel) => Some(trimmed(join(split_on(rel, '\\'), "/"@), Strip::Slash)),
            None => None,
        },
        None => None,
    }
}

/// The workspace name of a model file, from the canonical path of the root
/// directory and the canonical path of the file; none when the file has no
/// parent directory or lies outside the root.
pub fn workspace_name(parent_path: &str, child_path: &str) -> (r: Option<String>)
    ensures
        r.deep_view() == workspace_of(parent_path@, child_path@),
{
    let dir = match path_parent(child_path) {
        Some(d) => d,
        None => return None,
    };
    let rel = match path_strip_prefix(dir.as_str(), parent_path) {
        Some(r) => r,
        None => return None,
    };
    Some(workspace_from_relative(rel.as_str()))
}

/// A relative directory path with `/` as the separator and none at either
/// end.
pub fn workspace_from_relative(rel: &str) -> (r: String)
    ensures
        r@ == trimmed(join(split_on(rel@, '\\'), "/"@), Strip::Slash),
{
    let pieces = split_text(rel, '\\');
    let joined = join_texts(&pieces, "/");
    trim(joined.as_str(), Strip::Slash)
}

} // verus!
