//! What the server answers: where a load points, how another module is written as a load,
//! what a string may refer to, and what is offered inside a load.

use vstd::prelude::*;

use crate::lsp::diagnostics::{refused_load, refused_load_text};
use crate::lsp::project::Located;
use crate::text::{chars_of, is_at, join3, same, stands_at, views};

verus! {

/// Why a document has no place.
pub open spec fn not_a_module(uri: Seq<char>) -> Seq<char> {
    "`"@ + uri + "` is not a module in a hekla project"@
}

fn not_a_module_text(uri: &str) -> (r: String)
    ensures
        r@ == not_a_module(uri@),
{
    join3("`", uri, "` is not a module in a hekla project")
}

pub open spec fn answer_view(answer: Result<String, String>) -> Result<Seq<char>, Seq<char>> {
    match answer {
        Ok(text) => Ok(text@),
        Err(message) => Err(message@),
    }
}

/// Where a load points, or why it points nowhere, in a document that has a place or not.
pub open spec fn load_target(
    placed: bool,
    uri: Seq<char>,
    path: Seq<char>,
    normalized: Result<Seq<char>, Seq<char>>,
    shared: bool,
    label: Seq<char>,
) -> Result<Seq<char>, Seq<char>> {
    if !placed {
        Err(not_a_module(uri))
    } else {
        match normalized {
            Err(message) => Err(message),
            Ok(rel) => if shared {
                Ok(rel)
            } else {
                Err(refused_load(path, label))
            },
        }
    }
}

/// Where a load points, from the root of the project that the document is in. `normalized`
/// is the path from the root, or why there is none, `shared` whether it is in a shared
/// directory, and `label` what the document's role is called. Whether there is such a file
/// is not asked: a load may be written before the file it names.
pub fn resolve_load(
    located: Option<&Located>,
    current_file: &str,
    path: &str,
    normalized: Result<String, String>,
    shared: bool,
    label: &str,
) -> (r: Result<String, String>)
    ensures
        answer_view(r) == load_target(
            located is Some,
            current_file@,
            path@,
            answer_view(normalized),
            shared,
            label@,
        ),
        answer_view(r) == match (located, normalized) {
            (None, _) => Err(not_a_module(current_file@)),
            (Some(_), Err(message)) => Err(message@),
            (Some(_), Ok(rel)) => if shared {
                Ok(rel@)
            } else {
                Err(refused_load(path@, label@))
            },
        },
{
    if located.is_none() {
        return Err(not_a_module_text(current_file));
    }
    match normalized {
        Err(message) => Err(message),
        Ok(rel) => {
            if shared {
                Ok(rel)
            } else {
                Err(refused_load_text(path, label))
            }
        },
    }
}

/// How a module at a place of a project is written as a load in another, each by its project's
/// root and its path there, or why it cannot be.
pub open spec fn written_load(
    target: Option<(Seq<char>, Seq<char>)>,
    current: Option<(Seq<char>, Seq<char>)>,
    target_uri: Seq<char>,
    current_uri: Seq<char>,
    shared: bool,
    label: Seq<char>,
) -> Result<Seq<char>, Seq<char>> {
    match (target, current) {
        (None, _) => Err(not_a_module(target_uri)),
        (Some(_), None) => Err(not_a_module(current_uri)),
        (Some(to), Some(from)) => if to.0 != from.0 {
            Err("a module may not load from another hekla project"@)
        } else if !shared {
            Err("a "@ + label + " may not be loaded; only events/ and lib/ may be"@)
        } else {
            Ok(to.1)
        },
    }
}

/// The place of a document: its project's root and its path there.
pub open spec fn place_view(located: Option<&Located>) -> Option<(Seq<char>, Seq<char>)> {
    match located {
        Some(place) => Some((place.root@, place.rel@)),
        None => None,
    }
}

/// How a module is written as a load, always from the project's root. `shared` says whether
/// the target is in a shared directory, and `label` what its role is called. What could not
/// be loaded is refused, so that a symbol whose load would be rejected is not offered.
pub fn render_as_load(
    target: Option<&Located>,
    current: Option<&Located>,
    target_uri: &str,
    current_uri: &str,
    shared: bool,
    label: &str,
) -> (r: Result<String, String>)
    ensures
        answer_view(r) == written_load(
            place_view(target),
            place_view(current),
            target_uri@,
            current_uri@,
            shared,
            label@,
        ),
        answer_view(r) == match (target, current) {
            (None, _) => Err(not_a_module(target_uri@)),
            (Some(_), None) => Err(not_a_module(current_uri@)),
            (Some(to), Some(from)) => if to.root@ != from.root@ {
                Err("a module may not load from another hekla project"@)
            } else if !shared {
                Err("a "@ + label@ + " may not be loaded; only events/ and lib/ may be"@)
            } else {
                Ok(to.rel@)
            },
        },
{
    let to = match target {
        Some(to) => to,
        None => {
            return Err(not_a_module_text(target_uri));
        },
    };
    let from = match current {
        Some(from) => from,
        None => {
            return Err(not_a_module_text(current_uri));
        },
    };
    if !same(&to.root, &from.root) {
        return Err("a module may not load from another hekla project".to_owned());
    }
    if !shared {
        return Err(join3("a ", label, " may not be loaded; only events/ and lib/ may be"));
    }
    Ok(to.rel.clone())
}

/// The files that a string may refer to, in the order they are tried.
pub open spec fn candidates(literal: Seq<char>, shared: bool) -> Seq<Seq<char>> {
    (if shared {
        seq![literal]
    } else {
        Seq::empty()
    }) + seq![
        "commands/"@ + literal + ".star"@,
        "commands/internal/"@ + literal + ".star"@,
        "projectors/"@ + literal + ".star"@,
    ]
}

/// The files that a string may refer to, from the project's root, in the order they are
/// tried: itself where it is a path in a shared directory, then a command or a projector
/// of that name.
pub fn literal_candidates(literal: &str, shared: bool) -> (r: Vec<String>)
    ensures
        views(r@) == candidates(literal@, shared),
{
    let mut out: Vec<String> = Vec::new();
    if shared {
        out.push(literal.to_owned());
    }
    out.push(join3("commands/", literal, ".star"));
    out.push(join3("commands/internal/", literal, ".star"));
    out.push(join3("projectors/", literal, ".star"));
    assert(views(out@) =~= candidates(literal@, shared));
    out
}

/// Which of the files that a string may refer to it does: the first that there is.
pub fn first_existing(exists: &Vec<bool>) -> (r: Option<usize>)
    ensures
        match r {
            Some(at) => at < exists.len() && exists@[at as int] && forall|k: int|
                0 <= k < at ==> !(#[trigger] exists@[k]),
            None => forall|k: int| 0 <= k < exists.len() ==> !(#[trigger] exists@[k]),
        },
{
    let mut i: usize = 0;
    while i < exists.len()
        invariant
            i <= exists.len(),
            forall|k: int| 0 <= k < i ==> !(#[trigger] exists@[k]),
        decreases exists.len() - i,
    {
        if exists[i] {
            return Some(i);
        }
        i += 1;
    }
    None
}

/// The paths of a list that begin with what was typed.
pub open spec fn offered(paths: Seq<Seq<char>>, typed: Seq<char>) -> Seq<Seq<char>>
    decreases paths.len(),
{
    if paths.len() == 0 {
        paths
    } else if stands_at(paths.last(), typed, 0) {
        offered(paths.drop_last(), typed).push(paths.last())
    } else {
        offered(paths.drop_last(), typed)
    }
}

fn begins_with(text: &str, start: &str) -> (r: bool)
    ensures
        r == stands_at(text@, start@, 0),
{
    let chars: Vec<char> = chars_of(text);
    let part: Vec<char> = chars_of(start);
    part.len() <= chars.len() && is_at(&chars, &part, 0)
}

/// What is offered for what was typed, inside a load or outside one.
pub open spec fn completed(paths: Seq<Seq<char>>, typed: Seq<char>, in_load: bool) -> Seq<Seq<char>> {
    if in_load {
        offered(paths, typed)
    } else {
        Seq::empty()
    }
}

/// What is offered inside a load: exactly the paths that can be loaded, which begin with
/// what was typed. Outside a load nothing is: anything offered there would land in codes,
/// keys and addresses alike.
pub fn completions(paths: &Vec<String>, typed: &str, in_load: bool) -> (r: Vec<String>)
    ensures
        views(r@) == completed(views(paths@), typed@, in_load),
        views(r@) == if in_load {
            offered(views(paths@), typed@)
        } else {
            Seq::empty()
        },
{
    let mut out: Vec<String> = Vec::new();
    assert(views(out@) =~= Seq::empty());
    if !in_load {
        return out;
    }
    let ghost all = views(paths@);
    let mut i: usize = 0;
    assert(all.take(0) =~= Seq::empty());
    while i < paths.len()
        invariant
            i <= paths.len(),
            all == views(paths@),
            views(out@) == offered(all.take(i as int), typed@),
        decreases paths.len() - i,
    {
        assert(all.take(i as int + 1).drop_last() =~= all.take(i as int));
        assert(all.take(i as int + 1).last() == paths@[i as int]@);
        if begins_with(&paths[i], typed) {
            let ghost had = views(out@);
            out.push(paths[i].clone());
            assert(views(out@) =~= had.push(paths@[i as int]@));
        }
        i += 1;
    }
    assert(all.take(i as int) =~= all);
    out
}

} // verus!
