//! References into a central TOML file of secrets.

use vstd::prelude::*;
use vstd::string::*;

use crate::text::{
    begins, joined, law_beginnings_are_continued, law_splitting_takes_back_joining, none_holds,
    pieces, split, strip_prefix, texts,
};

verus! {

/// A TOML value of the `toml` crate.
#[verifier::external_type_specification]
#[verifier::external_body]
pub struct ExTomlValue(toml::Value);

/// A parse error of the `toml` crate.
#[verifier::external_type_specification]
#[verifier::external_body]
pub struct ExTomlError(toml::de::Error);

/// What a TOML value is, as far as references look into it.
pub enum Toml {
    Table(Map<Seq<char>, Toml>),
    Text(Seq<char>),
    Other,
}

/// What a value of the `toml` crate holds.
pub uninterp spec fn toml_tree(value: toml::Value) -> Toml;

/// The document that `toml::from_str` reads from a text, or `None` where it fails.
pub uninterp spec fn toml_document(text: Seq<char>) -> Option<Toml>;

/// `toml::from_str`: the value that it reads from `text` is a function of the text.
#[verifier::external_body]
fn parse_toml(text: &str) -> (r: Result<toml::Value, toml::de::Error>)
    ensures
        match r {
            Ok(value) => toml_document(text@) == Some(toml_tree(value)),
            Err(_) => toml_document(text@) is None,
        },
{
    toml::from_str::<toml::Value>(text)
}

/// `toml::Value::get` with a string: the member of a table under `key`, and nothing where there is
/// none or `value` is no table.
#[verifier::external_body]
fn toml_get<'a>(value: &'a toml::Value, key: &str) -> (r: Option<&'a toml::Value>)
    ensures
        match r {
            Some(member) => toml_member(toml_tree(*value), key@) == Some(toml_tree(*member)),
            None => toml_member(toml_tree(*value), key@) is None,
        },
{
    value.get(key)
}

/// `toml::Value::as_str`: the text of a string, and nothing for any other value.
#[verifier::external_body]
fn toml_as_str(value: &toml::Value) -> (r: Option<&str>)
    ensures
        match r {
            Some(text) => toml_tree(*value) == Toml::Text(text@),
            None => !(toml_tree(*value) is Text),
        },
{
    value.as_str()
}

/// The member of a table under `key`.
pub open spec fn toml_member(value: Toml, key: Seq<char>) -> Option<Toml> {
    match value {
        Toml::Table(members) => if members.contains_key(key) {
            Some(members[key])
        } else {
            None
        },
        _ => None,
    }
}

/// The value that `path` leads to from `root`, or the first segment that leads nowhere.
pub open spec fn walk(root: Toml, path: Seq<Seq<char>>) -> Result<Toml, Seq<char>>
    decreases path.len(),
{
    if path.len() == 0 {
        Ok(root)
    } else {
        match walk(root, path.drop_last()) {
            Ok(value) => match toml_member(value, path.last()) {
                Some(member) => Ok(member),
                None => Err(path.last()),
            },
            Err(segment) => Err(segment),
        }
    }
}

/// What is known of the file that `[secrets].source` names.
pub enum SecretsSource {
    /// The configuration names none.
    NotConfigured,
    /// The file could not be read.
    Unreadable { path: String },
    /// The file and its text.
    Text { path: String, text: String },
}

/// The contents of a `SecretsSource`.
pub enum SecretsView {
    NotConfigured,
    Unreadable { path: Seq<char> },
    Text { path: Seq<char>, text: Seq<char> },
}

impl View for SecretsSource {
    type V = SecretsView;

    open spec fn view(&self) -> SecretsView {
        match self {
            SecretsSource::NotConfigured => SecretsView::NotConfigured,
            SecretsSource::Unreadable { path } => SecretsView::Unreadable { path: path@ },
            SecretsSource::Text { path, text } => SecretsView::Text { path: path@, text: text@ },
        }
    }
}

/// Why a reference could not be resolved.
#[derive(Debug, Clone)]
pub enum RefError {
    /// There is a reference but no `[secrets].source`.
    NoSource,
    /// The source could not be read.
    Unreadable { source: String },
    /// The source is not TOML.
    Malformed { source: String },
    /// A segment of the path leads nowhere.
    MissingSegment { path: String, source: String, segment: String },
    /// The path leads to something other than a string.
    NotAString { path: String, source: String },
}

/// The contents of a `RefError`.
pub enum RefErrorView {
    NoSource,
    Unreadable { source: Seq<char> },
    Malformed { source: Seq<char> },
    MissingSegment { path: Seq<char>, source: Seq<char>, segment: Seq<char> },
    NotAString { path: Seq<char>, source: Seq<char> },
}

impl View for RefError {
    type V = RefErrorView;

    open spec fn view(&self) -> RefErrorView {
        match self {
            RefError::NoSource => RefErrorView::NoSource,
            RefError::Unreadable { source } => RefErrorView::Unreadable { source: source@ },
            RefError::Malformed { source } => RefErrorView::Malformed { source: source@ },
            RefError::MissingSegment { path, source, segment } => RefErrorView::MissingSegment {
                path: path@,
                source: source@,
                segment: segment@,
            },
            RefError::NotAString { path, source } => RefErrorView::NotAString {
                path: path@,
                source: source@,
            },
        }
    }
}

impl RefErrorView {
    /// The text of the error.
    pub open spec fn message(self) -> Seq<char> {
        match self {
            RefErrorView::NoSource => "$REF: indirection requires [secrets].source in config"@,
            RefErrorView::Unreadable { source } => "reading secrets source "@ + source,
            RefErrorView::Malformed { source } => "parsing secrets source "@ + source,
            RefErrorView::MissingSegment { path, source, segment } => "field path '"@ + path
                + "' not found in "@ + source + " (missing segment '"@ + segment + "')"@,
            RefErrorView::NotAString { path, source } => "field '"@ + path + "' in "@ + source
                + " is not a string"@,
        }
    }
}

impl RefError {
    /// The text of the error.
    pub fn message(&self) -> (r: String)
        ensures
            r@ == self@.message(),
    {
        match self {
            RefError::NoSource => {
                "$REF: indirection requires [secrets].source in config".to_owned()
            },
            RefError::Unreadable { source } => {
                "reading secrets source ".to_owned().concat(source.as_str())
            },
            RefError::Malformed { source } => {
                "parsing secrets source ".to_owned().concat(source.as_str())
            },
            RefError::MissingSegment { path, source, segment } => {
                "field path '".to_owned().concat(path.as_str()).concat("' not found in ").concat(
                    source.as_str(),
                ).concat(" (missing segment '").concat(segment.as_str()).concat("')")
            },
            RefError::NotAString { path, source } => {
                "field '".to_owned().concat(path.as_str()).concat("' in ").concat(
                    source.as_str(),
                ).concat(" is not a string")
            },
        }
    }
}

/// What marks a value as a reference.
pub open spec fn ref_mark() -> Seq<char> {
    "$REF:"@
}

/// Whether `value` is a reference.
pub open spec fn is_ref(value: Seq<char>) -> bool {
    begins(value, ref_mark())
}

/// The dotted path of a reference.
pub open spec fn ref_path(value: Seq<char>) -> Seq<char> {
    value.skip(ref_mark().len() as int)
}

/// What a dotted path names in a document of the file `source`.
pub open spec fn lookup(root: Toml, path: Seq<char>, source: Seq<char>) -> Result<
    Seq<char>,
    RefErrorView,
> {
    match walk(root, pieces(path, '.')) {
        Ok(Toml::Text(text)) => Ok(text),
        Ok(_) => Err(RefErrorView::NotAString { path, source }),
        Err(segment) => Err(RefErrorView::MissingSegment { path, source, segment }),
    }
}

/// What `value` stands for: itself, unless it is a reference, and then the string that its path
/// names in the secrets source.
pub open spec fn resolution(value: Seq<char>, secrets: SecretsView) -> Result<
    Seq<char>,
    RefErrorView,
> {
    if !is_ref(value) {
        Ok(value)
    } else {
        match secrets {
            SecretsView::NotConfigured => Err(RefErrorView::NoSource),
            SecretsView::Unreadable { path } => Err(RefErrorView::Unreadable { source: path }),
            SecretsView::Text { path, text } => match toml_document(text) {
                None => Err(RefErrorView::Malformed { source: path }),
                Some(root) => lookup(root, ref_path(value), path),
            },
        }
    }
}

/// Whether an executable result is what a specification says.
pub open spec fn text_result(
    r: Result<String, RefError>,
    expected: Result<Seq<char>, RefErrorView>,
) -> bool {
    match r {
        Ok(text) => expected == Ok::<Seq<char>, RefErrorView>(text@),
        Err(e) => expected == Err::<Seq<char>, RefErrorView>(e@),
    }
}

/// What the dotted `path` names in `root`, which was read from the file `source`.
pub fn lookup_field(root: &toml::Value, path: &str, source: &str) -> (r: Result<String, RefError>)
    ensures
        text_result(r, lookup(toml_tree(*root), path@, source@)),
{
    let segments = split(path, '.');
    let ghost parts = pieces(path@, '.');
    let mut current: &toml::Value = root;
    let mut i: usize = 0;
    while i < segments.len()
        invariant
            i <= segments@.len(),
            texts(segments@) == parts,
            parts == pieces(path@, '.'),
            walk(toml_tree(*root), parts.take(i as int)) == Ok::<Toml, Seq<char>>(
                toml_tree(*current),
            ),
        decreases segments@.len() - i,
    {
        assert(parts.take(i + 1).drop_last() == parts.take(i as int));
        assert(parts.take(i + 1).last() == segments@[i as int]@);
        match toml_get(current, segments[i].as_str()) {
            Some(member) => {
                current = member;
            },
            None => {
                proof {
                    lemma_walk_stuck(toml_tree(*root), parts, i + 1);
                }
                return Err(
                    RefError::MissingSegment {
                        path: path.to_owned(),
                        source: source.to_owned(),
                        segment: segments[i].clone(),
                    },
                );
            },
        }
        i = i + 1;
    }
    assert(parts.take(i as int) == parts);
    match toml_as_str(current) {
        Some(text) => Ok(text.to_owned()),
        None => Err(RefError::NotAString { path: path.to_owned(), source: source.to_owned() }),
    }
}

/// A walk that is stuck after some segments stays stuck.
proof fn lemma_walk_stuck(root: Toml, path: Seq<Seq<char>>, n: int)
    requires
        0 <= n <= path.len(),
        walk(root, path.take(n)) is Err,
    ensures
        walk(root, path) == walk(root, path.take(n)),
    decreases path.len(),
{
    if n < path.len() {
        assert(path.drop_last().take(n) == path.take(n));
        lemma_walk_stuck(root, path.drop_last(), n);
    } else {
        assert(path.take(n) == path);
    }
}

/// Resolves one `$REF:dotted.path` value against the secrets source. A value without the mark is
/// returned as it is.
pub fn resolve_ref(value: &str, secrets: &SecretsSource) -> (r: Result<String, RefError>)
    ensures
        text_result(r, resolution(value@, secrets@)),
{
    let path = match strip_prefix(value, "$REF:") {
        Some(path) => path,
        None => {
            return Ok(value.to_owned());
        },
    };
    match secrets {
        SecretsSource::NotConfigured => Err(RefError::NoSource),
        SecretsSource::Unreadable { path: source } => {
            Err(RefError::Unreadable { source: source.clone() })
        },
        SecretsSource::Text { path: source, text } => match parse_toml(text.as_str()) {
            Ok(root) => lookup_field(&root, path.as_str(), source.as_str()),
            Err(_) => Err(RefError::Malformed { source: source.clone() }),
        },
    }
}

/// A value that is no reference resolves to itself, whatever the secrets source.
pub proof fn law_plain_values_stand_for_themselves(value: Seq<char>, secrets: SecretsView)
    requires
        !is_ref(value),
    ensures
        resolution(value, secrets) == Ok::<Seq<char>, RefErrorView>(value),
{
}

/// A reference resolves exactly where there is a source that is TOML and the path leads to a
/// string in it; it then resolves to that string.
pub proof fn law_references_need_a_string(value: Seq<char>, secrets: SecretsView)
    requires
        is_ref(value),
    ensures
        resolution(value, secrets) is Ok <==> (secrets matches SecretsView::Text { path, text }
            && toml_document(text) matches Some(root)
            && walk(root, pieces(ref_path(value), '.')) matches Ok(Toml::Text(_))),
        resolution(value, secrets) matches Ok(found) ==> walk(
            toml_document(secrets->text)->0,
            pieces(ref_path(value), '.'),
        ) == Ok::<Toml, Seq<char>>(Toml::Text(found)),
{
}

/// Whether `path` leads from `root` to `value`, member by member.
pub open spec fn leads_to(root: Toml, path: Seq<Seq<char>>, value: Toml) -> bool
    decreases path.len(),
{
    if path.len() == 0 {
        root == value
    } else {
        match root {
            Toml::Table(members) => members.contains_key(path[0]) && leads_to(
                members[path[0]],
                path.skip(1),
                value,
            ),
            _ => false,
        }
    }
}

/// Whether a value has no member under `key`.
pub open spec fn lacks(value: Toml, key: Seq<char>) -> bool {
    match value {
        Toml::Table(members) => !members.contains_key(key),
        _ => true,
    }
}

/// A walk takes the first segment first.
proof fn lemma_walk_first(root: Toml, path: Seq<Seq<char>>)
    requires
        path.len() > 0,
    ensures
        walk(root, path) == match toml_member(root, path[0]) {
            Some(member) => walk(member, path.skip(1)),
            None => Err::<Toml, Seq<char>>(path[0]),
        },
    decreases path.len(),
{
    let rest = path.drop_last();
    if rest.len() == 0 {
        assert(path.skip(1) == Seq::<Seq<char>>::empty());
        assert(path.last() == path[0]);
        assert(walk(root, rest) == Ok::<Toml, Seq<char>>(root));
    } else {
        lemma_walk_first(root, rest);
        assert(rest.skip(1) == path.skip(1).drop_last());
        assert(rest[0] == path[0]);
        assert(path.skip(1).last() == path.last());
    }
}

/// A walk ends where the path leads.
proof fn lemma_walk_leads(root: Toml, path: Seq<Seq<char>>, value: Toml)
    ensures
        walk(root, path) == Ok::<Toml, Seq<char>>(value) <==> leads_to(root, path, value),
    decreases path.len(),
{
    if path.len() > 0 {
        lemma_walk_first(root, path);
        if let Some(member) = toml_member(root, path[0]) {
            lemma_walk_leads(member, path.skip(1), value);
        }
    }
}

/// A value that does not begin with `$REF:` stands for itself, whatever the secrets source.
pub proof fn law_only_the_mark_makes_a_reference(value: Seq<char>, secrets: SecretsView)
    requires
        forall|path: Seq<char>| value != #[trigger] ("$REF:"@ + path),
    ensures
        resolution(value, secrets) == Ok::<Seq<char>, RefErrorView>(value),
{
    law_beginnings_are_continued(value, "$REF:"@);
}

/// What comes of `$REF:` and a path without a document: each source has its own error.
pub proof fn law_references_need_a_document(path: Seq<char>, file: Seq<char>, text: Seq<char>)
    ensures
        resolution("$REF:"@ + path, SecretsView::NotConfigured) == Err::<Seq<char>, RefErrorView>(
            RefErrorView::NoSource,
        ),
        resolution("$REF:"@ + path, SecretsView::Unreadable { path: file }) == Err::<
            Seq<char>,
            RefErrorView,
        >(RefErrorView::Unreadable { source: file }),
        toml_document(text) is None ==> resolution(
            "$REF:"@ + path,
            SecretsView::Text { path: file, text },
        ) == Err::<Seq<char>, RefErrorView>(RefErrorView::Malformed { source: file }),
{
    law_beginnings_are_continued("$REF:"@ + path, "$REF:"@);
}

/// What `$REF:` and a dotted path stand for, with the segments of the path given one by one: the
/// string that they lead to in the document, and an error where they lead to something else or, at
/// some segment, nowhere.
pub proof fn law_references_lead_through_the_document(
    segments: Seq<Seq<char>>,
    file: Seq<char>,
    text: Seq<char>,
    value: Toml,
    k: int,
)
    requires
        segments.len() > 0,
        none_holds(segments, '.'),
        toml_document(text) is Some,
    ensures
        ({
            let path = joined(segments, '.');
            let found = resolution("$REF:"@ + path, SecretsView::Text { path: file, text });
            let root = toml_document(text)->0;
            &&& leads_to(root, segments, value) ==> found == match value {
                Toml::Text(string) => Ok::<Seq<char>, RefErrorView>(string),
                _ => Err::<Seq<char>, RefErrorView>(
                    RefErrorView::NotAString { path, source: file },
                ),
            }
            &&& 0 <= k < segments.len() && leads_to(root, segments.take(k), value) && lacks(
                value,
                segments[k],
            ) ==> found == Err::<Seq<char>, RefErrorView>(
                RefErrorView::MissingSegment { path, source: file, segment: segments[k] },
            )
        }),
{
    let path = joined(segments, '.');
    let marked = "$REF:"@ + path;
    law_beginnings_are_continued(marked, "$REF:"@);
    assert(marked.skip("$REF:"@.len() as int) == path);
    law_splitting_takes_back_joining(segments, '.');
    let root = toml_document(text)->0;
    lemma_walk_leads(root, segments, value);
    if 0 <= k < segments.len() && leads_to(root, segments.take(k), value) && lacks(
        value,
        segments[k],
    ) {
        lemma_walk_leads(root, segments.take(k), value);
        assert(segments.take(k + 1).drop_last() == segments.take(k));
        assert(segments.take(k + 1).last() == segments[k]);
        lemma_walk_stuck(root, segments, k + 1);
    }
}

/// What each error says.
pub proof fn law_what_reference_errors_say(
    path: Seq<char>,
    source: Seq<char>,
    segment: Seq<char>,
)
    ensures
        RefErrorView::NoSource.message()
            == "$REF: indirection requires [secrets].source in config"@,
        (RefErrorView::Unreadable { source }).message() == "reading secrets source "@ + source,
        (RefErrorView::Malformed { source }).message() == "parsing secrets source "@ + source,
        (RefErrorView::MissingSegment { path, source, segment }).message() == "field path '"@ + path
            + "' not found in "@ + source + " (missing segment '"@ + segment + "')"@,
        (RefErrorView::NotAString { path, source }).message() == "field '"@ + path + "' in "@
            + source + " is not a string"@,
{
}

/// The contents of a secrets source are its fields.
pub proof fn law_contents_of_a_source(path: String, text: String)
    ensures
        SecretsSource::NotConfigured@ == SecretsView::NotConfigured,
        (SecretsSource::Unreadable { path })@ == (SecretsView::Unreadable { path: path@ }),
        (SecretsSource::Text { path, text })@ == (SecretsView::Text { path: path@, text: text@ }),
{
}

/// The contents of a reference error are its fields.
pub proof fn law_contents_of_a_reference_error(path: String, source: String, segment: String)
    ensures
        RefError::NoSource@ == RefErrorView::NoSource,
        (RefError::Unreadable { source })@ == (RefErrorView::Unreadable { source: source@ }),
        (RefError::Malformed { source })@ == (RefErrorView::Malformed { source: source@ }),
        (RefError::MissingSegment { path, source, segment })@ == (RefErrorView::MissingSegment {
            path: path@,
            source: source@,
            segment: segment@,
        }),
        (RefError::NotAString { path, source })@ == (RefErrorView::NotAString {
            path: path@,
            source: source@,
        }),
{
}

/// A result is what is expected where it is the same text, or the same error.
pub proof fn law_results_are_compared_whole(
    r: Result<String, RefError>,
    expected: Result<Seq<char>, RefErrorView>,
)
    ensures
        text_result(r, expected) <==> match (r, expected) {
            (Ok(text), Ok(found)) => text@ == found,
            (Err(e), Err(error)) => e@ == error,
            _ => false,
        },
{
}

} // verus!
