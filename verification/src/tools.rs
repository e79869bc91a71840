//! Where the external tools are found.
use vstd::prelude::*;

use crate::error::{CradleError, ErrorView};
use crate::paths::{join, joined};
use crate::text::{texts, texts_push};

verus! {

broadcast use texts_push;

/// The places a tool may be at, in the order they are tried: below each
/// directory of the search path, then below the usual prefixes.
pub open spec fn places(path_dirs: Seq<Seq<char>>, name: Seq<char>) -> Seq<Seq<char>> {
    (path_dirs + seq!["/opt/homebrew/bin"@, "/usr/local/bin"@]).map_values(
        |d: Seq<char>| joined(d, name),
    )
}

/// The places a tool may be at, in the order they are tried.
pub fn candidates(path_dirs: &Vec<String>, name: &str) -> (out: Vec<String>)
    ensures
        texts(out@) == places(texts(path_dirs@), name@),
{
    let ghost dirs = texts(path_dirs@) + seq!["/opt/homebrew/bin"@, "/usr/local/bin"@];
    let ghost at = |d: Seq<char>| joined(d, name@);
    let mut out: Vec<String> = Vec::new();
    let mut i: usize = 0;
    assert(texts(out@) =~= dirs.take(0).map_values(at));
    while i < path_dirs.len()
        invariant
            i <= path_dirs@.len(),
            at == (|d: Seq<char>| joined(d, name@)),
            dirs == texts(path_dirs@) + seq!["/opt/homebrew/bin"@, "/usr/local/bin"@],
            texts(out@) == dirs.take(i as int).map_values(at),
        decreases path_dirs@.len() - i,
    {
        let place = join(path_dirs[i].as_str(), name);
        assert(dirs[i as int] == path_dirs@[i as int]@);
        assert(dirs.take(i + 1).map_values(at) =~= dirs.take(i as int).map_values(at).push(
            at(dirs[i as int]),
        ));
        out.push(place);
        i = i + 1;
    }
    let ghost n = path_dirs@.len() as int;
    out.push(join("/opt/homebrew/bin", name));
    assert(dirs[n] == "/opt/homebrew/bin"@);
    assert(dirs.take(n + 1).map_values(at) =~= dirs.take(n).map_values(at).push(at(dirs[n])));
    out.push(join("/usr/local/bin", name));
    assert(dirs[n + 1] == "/usr/local/bin"@);
    assert(dirs.take(n + 2).map_values(at) =~= dirs.take(n + 1).map_values(at).push(
        at(dirs[n + 1]),
    ));
    assert(dirs.take(n + 2) =~= dirs);
    out
}

/// The place of the first `true`, or the number of answers.
pub open spec fn first_true(answers: Seq<bool>) -> nat
    decreases answers.len(),
{
    if answers.len() == 0 || answers[0] {
        0
    } else {
        1 + first_true(answers.skip(1))
    }
}

/// Picks the first of the places at which there is a file.
pub fn resolve(name: &'static str, places: &Vec<String>, is_file: &Vec<bool>) -> (r: Result<
    String,
    CradleError,
>)
    requires
        is_file@.len() == places@.len(),
    ensures
        ({
            let at = first_true(is_file@) as int;
            match r {
                Ok(place) => at < places@.len() && place@ == texts(places@)[at],
                Err(e) => at == places@.len() && e@ == ErrorView::ToolNotFound(name@),
            }
        }),
{
    let mut i: usize = 0;
    assert(is_file@.skip(0) =~= is_file@);
    while i < places.len()
        invariant
            i <= places@.len(),
            is_file@.len() == places@.len(),
            first_true(is_file@) == i + first_true(is_file@.skip(i as int)),
        decreases places@.len() - i,
    {
        assert(is_file@.skip(i as int)[0] == is_file@[i as int]);
        if is_file[i] {
            assert(texts(places@)[i as int] == places@[i as int]@);
            return Ok(places[i].clone());
        }
        assert(is_file@.skip(i as int).skip(1) =~= is_file@.skip(i + 1));
        i = i + 1;
    }
    Err(CradleError::ToolNotFound(name))
}

/// A tool is looked for below each directory of the search path in turn, and then
/// below the two usual prefixes.
pub proof fn law_places(path_dirs: Seq<Seq<char>>, name: Seq<char>, i: int)
    requires
        0 <= i < path_dirs.len(),
    ensures
        places(path_dirs, name).len() == path_dirs.len() + 2,
        places(path_dirs, name)[i] == joined(path_dirs[i], name),
        places(path_dirs, name)[path_dirs.len() as int] == joined("/opt/homebrew/bin"@, name),
        places(path_dirs, name)[path_dirs.len() as int + 1] == joined("/usr/local/bin"@, name),
{
}

/// The place taken is the first with an answer of yes; there is none only where all
/// are no.
pub proof fn law_first_true(answers: Seq<bool>)
    ensures
        first_true(answers) <= answers.len(),
        first_true(answers) < answers.len() ==> answers[first_true(answers) as int],
        forall|i: int| 0 <= i < first_true(answers) ==> !#[trigger] answers[i],
    decreases answers.len(),
{
    if answers.len() > 0 && !answers[0] {
        let rest = answers.skip(1);
        law_first_true(rest);
        assert forall|i: int| 0 <= i < first_true(answers) implies !#[trigger] answers[i] by {
            if i > 0 {
                assert(!rest[i - 1]);
            }
        }
    }
}

} // verus!
