//! The `--ignore-glob` patterns, matched through the `globset` crate.
use vstd::prelude::*;
use crate::types::{texts, OxError};

verus! {

#[verifier::external_type_specification]
#[verifier::external_body]
pub struct ExGlob(globset::Glob);

#[verifier::external_type_specification]
#[verifier::external_body]
pub struct ExGlobSet(globset::GlobSet);

#[verifier::external_type_specification]
#[verifier::external_body]
pub struct ExGlobSetBuilder(globset::GlobSetBuilder);

#[verifier::external_type_specification]
#[verifier::external_body]
pub struct ExGlobError(globset::Error);

/// Whether `Glob::new` accepts the pattern.
pub uninterp spec fn glob_pattern_valid(pattern: Seq<char>) -> bool;

/// The paths, as text, that a compiled glob set matches.
pub uninterp spec fn glob_set_matches(set: globset::GlobSet) -> Set<Seq<char>>;

/// The paths, as text, that the glob `Glob::new(pattern)` matches.
pub uninterp spec fn glob_matches(pattern: Seq<char>) -> Set<Seq<char>>;

/// The pattern a compiled glob was built from (`Glob::glob`).
pub uninterp spec fn glob_source(glob: globset::Glob) -> Seq<char>;

/// The patterns of the globs added to a builder, in order.
pub uninterp spec fn builder_patterns(builder: globset::GlobSetBuilder) -> Seq<Seq<char>>;

/// Whether `GlobSetBuilder::build` succeeds on globs compiled from the
/// patterns, in order.
pub uninterp spec fn glob_set_builds(patterns: Seq<Seq<char>>) -> bool;

/// The paths that some glob of the patterns matches.
pub open spec fn any_glob_matches(patterns: Seq<Seq<char>>) -> Set<Seq<char>> {
    Set::new(|p: Seq<char>| exists|i: int| 0 <= i < patterns.len() && #[trigger] glob_matches(patterns[i]).contains(p))
}

/// `globset::Glob::new`: compiles one pattern with the default options.  The
/// contract claims that success depends on the pattern text alone, and that the
/// glob keeps its pattern (`Glob::glob` returns it); which paths it matches is
/// named (`glob_matches`), not stated.
#[verifier::external_body]
fn compile_glob(pattern: &str) -> (r: Result<globset::Glob, globset::Error>)
    ensures
        r is Ok <==> glob_pattern_valid(pattern@),
        r matches Ok(g) ==> glob_source(g) == pattern@,
{
    globset::Glob::new(pattern)
}

/// `globset::GlobSetBuilder::new`: a builder with no glob added.
#[verifier::external_body]
fn new_glob_builder() -> (r: globset::GlobSetBuilder)
    ensures
        builder_patterns(r) == Seq::<Seq<char>>::empty(),
{
    globset::GlobSetBuilder::new()
}

/// `globset::GlobSetBuilder::add`: pushes the glob onto the builder's list.
#[verifier::external_body]
fn add_glob(builder: &mut globset::GlobSetBuilder, glob: globset::Glob)
    ensures
        builder_patterns(*final(builder)) == builder_patterns(*old(builder)).push(glob_source(glob)),
{
    builder.add(glob);
}

/// `globset::GlobSetBuilder::build`: combines the added globs into one matcher,
/// which matches a path when any of the globs matches it (`GlobSet::is_match`).
/// Whether it succeeds (it can fail on a size limit of the compiled matcher)
/// depends on the patterns alone, and is named.
#[verifier::external_body]
fn build_glob_set(builder: &globset::GlobSetBuilder) -> (r: Result<globset::GlobSet, globset::Error>)
    ensures
        r is Ok <==> glob_set_builds(builder_patterns(*builder)),
        r matches Ok(set) ==> glob_set_matches(set) == Set::new(
            |p: Seq<char>|
                exists|i: int|
                    0 <= i < builder_patterns(*builder).len() && #[trigger] glob_matches(
                        builder_patterns(*builder)[i],
                    ).contains(p),
        ),
{
    builder.build()
}

/// `globset::GlobSet::is_match` on the path written `path`: claims that the answer
/// is membership in the set's (named) matched paths.
#[verifier::external_body]
pub(crate) fn glob_set_is_match(set: &globset::GlobSet, path: &str) -> (r: bool)
    ensures
        r == glob_set_matches(*set).contains(path@),
{
    set.is_match(path)
}

/// `Display` of a `globset::Error`, for messages.  Nothing is claimed of the text.
#[verifier::external_body]
fn glob_error_text(e: &globset::Error) -> String {
    e.to_string()
}

/// Builds the matcher for the `--ignore-glob` patterns: it matches a path when
/// one of the patterns does.  It fails on the first pattern that is not a valid
/// glob, naming it; when every pattern is valid it succeeds exactly when the
/// globs combine into one matcher.
pub fn build_ignore_globset(patterns: &Vec<String>) -> (r: Result<globset::GlobSet, OxError>)
    ensures
        r is Ok <==> (forall|i: int| 0 <= i < patterns.len() ==> glob_pattern_valid(#[trigger] patterns@[i]@))
            && glob_set_builds(texts(patterns@)),
        r matches Ok(set) ==> glob_set_matches(set) == any_glob_matches(texts(patterns@)),
        r is Ok ==> forall|i: int| 0 <= i < patterns.len() ==> glob_pattern_valid(#[trigger] patterns@[i]@),
        (exists|i: int| 0 <= i < patterns.len() && !glob_pattern_valid(#[trigger] patterns@[i]@))
            ==> r matches Err(OxError::InvalidGlobPattern { .. }),
        r matches Err(OxError::InvalidGlobPattern { pattern, .. }) ==> exists|i: int|
            0 <= i < patterns.len() && patterns@[i]@ == pattern@ && !glob_pattern_valid(
                #[trigger] patterns@[i]@,
            ) && forall|j: int| 0 <= j < i ==> glob_pattern_valid(#[trigger] patterns@[j]@),
{
    let mut builder = new_glob_builder();
    let mut i: usize = 0;
    while i < patterns.len()
        invariant
            i <= patterns.len(),
            forall|j: int| 0 <= j < i ==> glob_pattern_valid(#[trigger] patterns@[j]@),
            builder_patterns(builder) == texts(patterns@.take(i as int)),
        decreases patterns.len() - i,
    {
        match compile_glob(patterns[i].as_str()) {
            Ok(glob) => {
                add_glob(&mut builder, glob);
                assert(texts(patterns@.take(i + 1)) =~= texts(patterns@.take(i as int)).push(patterns@[i as int]@));
            },
            Err(e) => {
                let detail = glob_error_text(&e);
                return Err(OxError::InvalidGlobPattern { pattern: patterns[i].clone(), detail });
            },
        }
        i += 1;
    }
    assert(patterns@.take(patterns.len() as int) =~= patterns@);
    match build_glob_set(&builder) {
        Ok(set) => {
            assert(glob_set_matches(set) =~= any_glob_matches(texts(patterns@)));
            Ok(set)
        },
        Err(e) => Err(OxError::InvalidGlobSet { detail: glob_error_text(&e) }),
    }
}

} // verus!
