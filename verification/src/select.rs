//! Selection of the runtime and of each exercise's solution file.
//!
//! Both selections are first-match lookups under exact string equality: the
//! runtime is the first catalog entry whose language equals the requested
//! identifier, and an exercise's file is the first loaded file whose name
//! equals the exercise's name.

use vstd::prelude::*;
use crate::model::GradeError;
use crate::model::Runtime;
use crate::model::RuntimeView;
use crate::model::SolutionFile;
use crate::model::SolutionFileView;

verus! {

/// Whether some runtime of `catalog` has exactly the language `lang`.
pub open spec fn has_runtime(catalog: Seq<RuntimeView>, lang: Seq<char>) -> bool {
    exists|i: int| 0 <= i < catalog.len() && catalog[i].language == lang
}

/// The least catalog index whose runtime has exactly the language `lang`.
pub open spec fn first_runtime(catalog: Seq<RuntimeView>, lang: Seq<char>) -> int
    decreases catalog.len(),
{
    if catalog.len() == 0 {
        0
    } else if catalog[0].language == lang {
        0
    } else {
        1 + first_runtime(catalog.drop_first(), lang)
    }
}

/// An index whose runtime matches `lang`, with no match before it, is
/// exactly the first match.
pub proof fn lemma_first_runtime_is(catalog: Seq<RuntimeView>, lang: Seq<char>, i: int)
    requires
        0 <= i < catalog.len(),
        catalog[i].language == lang,
        forall|j: int| 0 <= j < i ==> catalog[j].language != lang,
    ensures
        first_runtime(catalog, lang) == i,
    decreases catalog.len(),
{
    if i > 0 {
        lemma_first_runtime_is(catalog.drop_first(), lang, i - 1);
    }
}

/// Whether some file of `files` is named exactly `name`.
pub open spec fn has_file(files: Seq<SolutionFileView>, name: Seq<char>) -> bool {
    exists|i: int| 0 <= i < files.len() && files[i].name == name
}

/// The least index of a file named exactly `name`.
pub open spec fn first_file(files: Seq<SolutionFileView>, name: Seq<char>) -> int
    decreases files.len(),
{
    if files.len() == 0 {
        0
    } else if files[0].name == name {
        0
    } else {
        1 + first_file(files.drop_first(), name)
    }
}

/// An index whose file matches `name`, with no match before it, is exactly
/// the first match.
pub proof fn lemma_first_file_is(files: Seq<SolutionFileView>, name: Seq<char>, i: int)
    requires
        0 <= i < files.len(),
        files[i].name == name,
        forall|j: int| 0 <= j < i ==> files[j].name != name,
    ensures
        first_file(files, name) == i,
    decreases files.len(),
{
    if i > 0 {
        lemma_first_file_is(files.drop_first(), name, i - 1);
    }
}

/// Copies a vector of strings.
pub fn clone_strings(v: &Vec<String>) -> (r: Vec<String>)
    ensures
        r.deep_view() == v.deep_view(),
{
    let mut r: Vec<String> = Vec::new();
    let mut i: usize = 0;
    while i < v.len()
        invariant
            0 <= i <= v.len(),
            r@.len() == i,
            forall|j: int| 0 <= j < i ==> r@[j]@ == v@[j]@,
        decreases v.len() - i,
    {
        r.push(v[i].clone());
        i = i + 1;
    }
    proof {
        assert(r.deep_view() =~= v.deep_view());
    }
    r
}

/// Selects the runtime used for every submission of the run: the first entry
/// of the service's catalog whose `language` field exactly equals the
/// requested identifier. Fails, before any submission can be made, when no
/// entry matches.
pub fn resolve_runtime(catalog: &Vec<Runtime>, language: &str) -> (r: Result<Runtime, GradeError>)
    ensures
        match r {
            Ok(rt) => has_runtime(catalog.deep_view(), language@) && rt@ == catalog.deep_view()[
                first_runtime(catalog.deep_view(), language@)
            ],
            Err(e) => e == GradeError::RuntimeNotFound && !has_runtime(
                catalog.deep_view(),
                language@,
            ),
        },
{
    let lang: String = language.to_owned();
    let mut i: usize = 0;
    while i < catalog.len()
        invariant
            0 <= i <= catalog.len(),
            lang@ == language@,
            forall|j: int| 0 <= j < i ==> catalog.deep_view()[j].language != language@,
        decreases catalog.len() - i,
    {
        if catalog[i].language == lang {
            proof {
                assert(catalog.deep_view()[i as int] == catalog@[i as int]@);
                assert(catalog.deep_view()[i as int].language == language@);
                lemma_first_runtime_is(catalog.deep_view(), language@, i as int);
            }
            let found = &catalog[i];
            let rt = Runtime {
                language: found.language.clone(),
                version: found.version.clone(),
                aliases: clone_strings(&found.aliases),
            };
            proof {
                assert(rt@ == catalog@[i as int]@);
            }
            return Ok(rt);
        }
        i = i + 1;
    }
    Err(GradeError::RuntimeNotFound)
}

/// Binds an exercise to its solution file: the first loaded file whose name
/// exactly equals `name`. A duplicate file name is not an error; the first
/// one encountered wins. Fails when no file matches.
pub fn find_solution_file<'a>(name: &str, files: &'a Vec<SolutionFile>) -> (r: Result<
    &'a SolutionFile,
    GradeError,
>)
    ensures
        match r {
            Ok(f) => has_file(files.deep_view(), name@) && f@ == files.deep_view()[
                first_file(files.deep_view(), name@)
            ],
            Err(e) => e == GradeError::ExerciseFileMissing && !has_file(files.deep_view(), name@),
        },
{
    let wanted: String = name.to_owned();
    let mut i: usize = 0;
    while i < files.len()
        invariant
            0 <= i <= files.len(),
            wanted@ == name@,
            forall|j: int| 0 <= j < i ==> files.deep_view()[j].name != name@,
        decreases files.len() - i,
    {
        if files[i].name == wanted {
            proof {
                assert(files.deep_view()[i as int] == files@[i as int]@);
                assert(files.deep_view()[i as int].name == name@);
                lemma_first_file_is(files.deep_view(), name@, i as int);
            }
            return Ok(&files[i]);
        }
        i = i + 1;
    }
    Err(GradeError::ExerciseFileMissing)
}

} // verus!
