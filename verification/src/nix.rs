//! Flake references, the text that describes a flake, and the way from the
//! address that a flake was resolved to, to the file of the flake.

use vstd::prelude::*;
use vstd::utf8::decode_utf8;
use vstd::utf8::valid_utf8;
use crate::metadata::Metadata;

verus! {

/// A reference to a flake, in the form of a URL.
#[derive(Debug, PartialEq, Eq)]
pub struct FlakeRef(pub String);

/// The description of a flake as JSON text.
#[derive(Debug, PartialEq, Eq)]
pub struct JsonMetadata(pub String);

/// The parts of the address that a flake was resolved to.
#[derive(Debug, PartialEq, Eq)]
pub struct ResolvedUrl {
    /// The scheme, in lower case, without the colon.
    pub scheme: String,
    /// The path, percent-encoded.
    pub path: String,
    /// The keys and values of the query, decoded, in the order of the query.
    pub query_pairs: Vec<(String, String)>,
}

/// The file of a flake: `flake.nix` in the directory `dir` below `root`,
/// where `dir` may be empty.
#[derive(Debug, PartialEq, Eq)]
pub struct FlakeFilepath {
    pub root: String,
    pub dir: String,
}

/// Why no file of a flake was found from an address.
#[derive(Debug, PartialEq, Eq)]
pub enum ResolveError {
    /// The address is not a URL; with the reason.
    InvalidUrl(String),
    /// The scheme of the address, given here, is not one of local files.
    UnsupportedScheme(String),
}

/// Why the output of the tool that describes a flake is of no use.
#[derive(Clone, Copy, Debug, PartialEq, Eq, Structural)]
pub enum OutputError {
    /// The tool did not end well.
    Failed,
    /// The tool ended well, but what it wrote is not UTF-8.
    NotUtf8,
}

/// The parts of an address as plain values.
pub struct ResolvedUrlView {
    pub scheme: Seq<char>,
    pub path: Seq<char>,
    pub query_pairs: Seq<(Seq<char>, Seq<char>)>,
}

/// The file of a flake as plain values.
pub struct FlakeFilepathView {
    pub root: Seq<char>,
    pub dir: Seq<char>,
}

/// The reason why no file was found, as plain values.
pub enum ResolveErrorView {
    InvalidUrl(Seq<char>),
    UnsupportedScheme(Seq<char>),
}

/// The keys and values of a query as plain values.
pub open spec fn pairs_view(pairs: Seq<(String, String)>) -> Seq<(Seq<char>, Seq<char>)> {
    pairs.map_values(|pair: (String, String)| (pair.0@, pair.1@))
}

impl View for FlakeRef {
    type V = Seq<char>;

    open spec fn view(&self) -> Seq<char> {
        self.0@
    }
}

impl View for JsonMetadata {
    type V = Seq<char>;

    open spec fn view(&self) -> Seq<char> {
        self.0@
    }
}

impl View for ResolvedUrl {
    type V = ResolvedUrlView;

    open spec fn view(&self) -> ResolvedUrlView {
        ResolvedUrlView {
            scheme: self.scheme@,
            path: self.path@,
            query_pairs: pairs_view(self.query_pairs@),
        }
    }
}

impl View for FlakeFilepath {
    type V = FlakeFilepathView;

    open spec fn view(&self) -> FlakeFilepathView {
        FlakeFilepathView { root: self.root@, dir: self.dir@ }
    }
}

impl View for ResolveError {
    type V = ResolveErrorView;

    open spec fn view(&self) -> ResolveErrorView {
        match self {
            ResolveError::InvalidUrl(reason) => ResolveErrorView::InvalidUrl(reason@),
            ResolveError::UnsupportedScheme(scheme) => ResolveErrorView::UnsupportedScheme(scheme@),
        }
    }
}

impl Clone for ResolvedUrl {
    fn clone(&self) -> (copy: Self)
        ensures
            copy@ == self@,
    {
        let mut query_pairs: Vec<(String, String)> = Vec::new();
        let mut i: usize = 0;
        while i < self.query_pairs.len()
            invariant
                i <= self.query_pairs@.len(),
                query_pairs@.len() == i,
                forall|j: int| 0 <= j < i ==> (#[trigger] query_pairs@[j]) == self.query_pairs@[j],
            decreases self.query_pairs@.len() - i,
        {
            let pair = &self.query_pairs[i];
            query_pairs.push((pair.0.clone(), pair.1.clone()));
            i += 1;
        }
        assert(pairs_view(query_pairs@) =~= pairs_view(self.query_pairs@));
        ResolvedUrl { scheme: self.scheme.clone(), path: self.path.clone(), query_pairs }
    }
}

/// The name of the file of a flake in its directory.
pub open spec fn flake_file_name() -> Seq<char> {
    "flake.nix"@
}

impl FlakeFilepathView {
    /// The parts of the path to the file, from the outermost on.
    pub open spec fn components(self) -> Seq<Seq<char>> {
        seq![self.root, self.dir, flake_file_name()]
    }
}

impl ResolveErrorView {
    /// The text that `message` gives for this reason.
    pub open spec fn message_text(self) -> Seq<char> {
        match self {
            ResolveErrorView::InvalidUrl(reason) => "the resolved URL cannot be read: "@ + reason,
            ResolveErrorView::UnsupportedScheme(scheme) =>
                "no local `flake.nix` file can be resolved with given URL scheme '"@ + scheme
                    + "'"@,
        }
    }
}

impl FlakeFilepath {
    /// The parts of the path to the file, from the outermost on: the root,
    /// the directory below it, and the name of the file.
    pub fn components(&self) -> (parts: Vec<String>)
        ensures
            crate::config::strings_view(parts@) == self@.components(),
    {
        let mut parts: Vec<String> = Vec::new();
        parts.push(self.root.clone());
        parts.push(self.dir.clone());
        parts.push("flake.nix".to_owned());
        assert(crate::config::strings_view(parts@) =~= self@.components());
        parts
    }
}

impl ResolveError {
    /// A sentence that says why no file was found.
    pub fn message(&self) -> (text: String)
        ensures
            text@ == self@.message_text(),
    {
        match self {
            ResolveError::InvalidUrl(reason) => {
                let mut text = "the resolved URL cannot be read: ".to_owned();
                text.append(reason.as_str());
                text
            },
            ResolveError::UnsupportedScheme(scheme) => {
                let mut text =
                    "no local `flake.nix` file can be resolved with given URL scheme '".to_owned();
                text.append(scheme.as_str());
                text.append("'");
                text
            },
        }
    }
}

/// What the URL parser makes of a text: the parts of the URL that the text
/// spells, or the parser's reason why it spells none.
pub uninterp spec fn parsed_url(text: Seq<char>) -> Result<ResolvedUrlView, Seq<char>>;

/// Parses `text` with `url::Url::parse` and reads the parts of the URL with
/// `Url::scheme`, `Url::path` and `Url::query_pairs`; where the parser
/// refuses the text, gives the words of its error.
///
/// Taken on trust: that the outcome depends on the text alone. Nothing is
/// claimed of what the parts are.
#[verifier::external_body]
fn parse_url(text: &str) -> (parts: Result<ResolvedUrl, String>)
    ensures
        match parts {
            Ok(url) => parsed_url(text@) == Ok::<ResolvedUrlView, Seq<char>>(url@),
            Err(reason) => parsed_url(text@) == Err::<ResolvedUrlView, Seq<char>>(reason@),
        },
{
    match url::Url::parse(text) {
        Ok(url) => Ok(
            ResolvedUrl {
                scheme: url.scheme().to_owned(),
                path: url.path().to_owned(),
                query_pairs: url
                    .query_pairs()
                    .map(|(key, value)| (key.into_owned(), value.into_owned()))
                    .collect(),
            },
        ),
        Err(error) => Err(error.to_string()),
    }
}

/// Turns bytes into a string with `String::from_utf8`.
///
/// Taken on trust, as the documentation of the standard library has it: the
/// bytes become a string exactly if they are valid UTF-8, and the string then
/// holds the characters that they encode.
#[verifier::external_body]
fn string_from_utf8(bytes: Vec<u8>) -> (text: Option<String>)
    ensures
        text is Some <==> valid_utf8(bytes@),
        text matches Some(string) ==> string@ == decode_utf8(bytes@),
{
    match String::from_utf8(bytes) {
        Ok(string) => Some(string),
        Err(_) => None,
    }
}

impl ResolvedUrl {
    /// What `parse` makes of a text.
    pub open spec fn parse_outcome(text: Seq<char>) -> Result<ResolvedUrlView, ResolveErrorView> {
        match parsed_url(text) {
            Ok(url) => Ok(url),
            Err(reason) => Err(ResolveErrorView::InvalidUrl(reason)),
        }
    }

    /// Reads the address that a flake was resolved to.
    pub fn parse(text: &str) -> (outcome: Result<ResolvedUrl, ResolveError>)
        ensures
            match outcome {
                Ok(url) => Self::parse_outcome(text@) == Ok::<ResolvedUrlView, ResolveErrorView>(
                    url@,
                ),
                Err(error) => Self::parse_outcome(text@) == Err::<
                    ResolvedUrlView,
                    ResolveErrorView,
                >(error@),
            },
    {
        match parse_url(text) {
            Ok(url) => Ok(url),
            Err(reason) => Err(ResolveError::InvalidUrl(reason)),
        }
    }
}

/// What the output of the tool that describes a flake is worth.
pub open spec fn output_outcome(succeeded: bool, output: Seq<u8>) -> Result<Seq<char>, OutputError> {
    if !succeeded {
        Err(OutputError::Failed)
    } else if valid_utf8(output) {
        Ok(decode_utf8(output))
    } else {
        Err(OutputError::NotUtf8)
    }
}

impl JsonMetadata {
    /// The description of a flake from what the tool that describes flakes
    /// wrote: its output as text, if it ended well and wrote UTF-8.
    pub fn from_output(succeeded: bool, output: Vec<u8>) -> (outcome: Result<
        JsonMetadata,
        OutputError,
    >)
        ensures
            match outcome {
                Ok(json) => output_outcome(succeeded, output@) == Ok::<Seq<char>, OutputError>(
                    json@,
                ),
                Err(error) => output_outcome(succeeded, output@) == Err::<Seq<char>, OutputError>(
                    error,
                ),
            },
    {
        if !succeeded {
            return Err(OutputError::Failed);
        }
        match string_from_utf8(output) {
            Some(text) => Ok(JsonMetadata(text)),
            None => Err(OutputError::NotUtf8),
        }
    }
}

/// Whether addresses of the scheme lead to local files.
pub open spec fn is_local_scheme(scheme: Seq<char>) -> bool {
    scheme == "git+file"@ || scheme == "file"@
}

/// The pair `at` is the first of the query with the key `dir`.
pub open spec fn first_dir_at(pairs: Seq<(Seq<char>, Seq<char>)>, at: int) -> bool {
    &&& 0 <= at < pairs.len()
    &&& pairs[at].0 == "dir"@
    &&& forall|i: int| 0 <= i < at ==> (#[trigger] pairs[i]).0 != "dir"@
}

/// The directory that a query names: the value of its first pair with the
/// key `dir`, and the empty text where it has no such pair.
pub open spec fn dir_of(pairs: Seq<(Seq<char>, Seq<char>)>) -> Seq<char> {
    if exists|at: int| first_dir_at(pairs, at) {
        pairs[choose|at: int| first_dir_at(pairs, at)].1
    } else {
        Seq::empty()
    }
}

/// The file of the flake at an address: below the path of the address, in
/// the directory that the query names. Only addresses of local files have
/// one.
pub open spec fn flake_filepath_of(url: ResolvedUrlView) -> Result<
    FlakeFilepathView,
    ResolveErrorView,
> {
    if is_local_scheme(url.scheme) {
        Ok(FlakeFilepathView { root: url.path, dir: dir_of(url.query_pairs) })
    } else {
        Err(ResolveErrorView::UnsupportedScheme(url.scheme))
    }
}

/// The directory that the query names.
fn query_dir(pairs: &Vec<(String, String)>) -> (dir: String)
    ensures
        dir@ == dir_of(pairs_view(pairs@)),
{
    let key = "dir".to_owned();
    let ghost all = pairs_view(pairs@);
    let mut i: usize = 0;
    while i < pairs.len()
        invariant
            i <= pairs@.len(),
            key@ == "dir"@,
            all == pairs_view(pairs@),
            forall|j: int| 0 <= j < i ==> (#[trigger] all[j]).0 != "dir"@,
        decreases pairs@.len() - i,
    {
        assert(all[i as int] == (pairs@[i as int].0@, pairs@[i as int].1@));
        if pairs[i].0 == key {
            proof {
                let at = choose|at: int| first_dir_at(all, at);
                assert(first_dir_at(all, i as int));
                if at < i {
                    assert(all[at].0 != "dir"@);
                } else if i < at {
                    assert(all[i as int].0 != "dir"@);
                }
            }
            return pairs[i].1.clone();
        }
        i += 1;
    }
    String::new()
}

/// Finds the file of a flake from the address that the flake was resolved
/// to.
///
/// Only the schemes `git+file` and `file` lead to a local file. The file is
/// `flake.nix`, in the directory that the first `dir` of the query names,
/// below the path of the address.
pub fn resolve_flake_filepath(metadata: &Metadata) -> (filepath: Result<FlakeFilepath, ResolveError>)
    ensures
        match filepath {
            Ok(found) => flake_filepath_of(metadata@.resolved_url) == Ok::<
                FlakeFilepathView,
                ResolveErrorView,
            >(found@),
            Err(error) => flake_filepath_of(metadata@.resolved_url) == Err::<
                FlakeFilepathView,
                ResolveErrorView,
            >(error@),
        },
{
    let url = &metadata.resolved_url;
    let git_file = "git+file".to_owned();
    let file = "file".to_owned();
    if url.scheme != git_file && url.scheme != file {
        return Err(ResolveError::UnsupportedScheme(url.scheme.clone()));
    }
    let dir = query_dir(&url.query_pairs);
    Ok(FlakeFilepath { root: url.path.clone(), dir })
}

} // verus!
