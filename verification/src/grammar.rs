//! The shape of a service specification, as mathematics.
//!
//! A specification is one line of text:
//!
//! ```text
//! spec     := project "/" repository branch? ":" path "@" services
//! branch   := "+" text
//! services := name ("," name)*
//! ```
//!
//! `project` holds no `/`, `repository` neither `+` nor `:`, the text of a
//! branch no `:`, `path` no `@` and a `name` no `,`. Each of them holds at
//! least one character.
//!
//! [`render`] writes the parts of a specification out as text and
//! [`well_formed`] says which parts the grammar admits. [`skeleton`] goes the
//! other way and takes a text apart at its delimiters. The lemmas of this
//! module show that the two are inverse to each other.

use vstd::prelude::*;

verus! {

/// No character of `s` is one of `stops`.
pub open spec fn avoids(s: Seq<char>, stops: Set<char>) -> bool {
    forall|i: int| 0 <= i < s.len() ==> !stops.contains(#[trigger] s[i])
}

/// How many characters of `s` stand before its first character out of
/// `stops`; the length of `s` where it holds none of them.
pub open spec fn lead(s: Seq<char>, stops: Set<char>) -> nat
    decreases s.len(),
{
    if s.len() == 0 || stops.contains(s[0]) {
        0
    } else {
        1 + lead(s.drop_first(), stops)
    }
}

/// `s` taken apart at its first character out of `stops`: the text before
/// that character, the character, and the text behind it. `None` where `s`
/// holds no character out of `stops`.
pub open spec fn cut(s: Seq<char>, stops: Set<char>) -> Option<(Seq<char>, char, Seq<char>)> {
    let n = lead(s, stops) as int;
    if n < s.len() {
        Some((s.take(n), s[n], s.skip(n + 1)))
    } else {
        None
    }
}

/// The pieces of `s` between its separators `sep`, in order. A text without
/// a separator is one piece, so the result is never empty; a separator at
/// either end, or two in a row, give an empty piece.
pub open spec fn split(s: Seq<char>, sep: char) -> Seq<Seq<char>>
    decreases s.len(),
{
    let n = lead(s, set![sep]) as int;
    if n < s.len() {
        seq![s.take(n)] + split(s.skip(n + 1), sep)
    } else {
        seq![s]
    }
}

/// The `pieces` written one after the other with `sep` between them.
pub open spec fn join(pieces: Seq<Seq<char>>, sep: char) -> Seq<char>
    decreases pieces.len(),
{
    if pieces.len() == 0 {
        Seq::empty()
    } else if pieces.len() == 1 {
        pieces[0]
    } else {
        pieces[0] + seq![sep] + join(pieces.drop_first(), sep)
    }
}

/// Every piece holds at least one character.
pub open spec fn all_filled(pieces: Seq<Seq<char>>) -> bool {
    forall|i: int| 0 <= i < pieces.len() ==> (#[trigger] pieces[i]).len() > 0
}

/// The parts of a specification as they stand in its text. `branch` is the
/// text between the `+` and the `:`, where the specification has a branch;
/// `services` is all that follows the `@`, separators included.
pub struct Parts {
    pub project: Seq<char>,
    pub repository: Seq<char>,
    pub branch: Option<Seq<char>>,
    pub path: Seq<char>,
    pub services: Seq<char>,
}

/// The text of a specification with the given parts.
pub open spec fn render(parts: Parts) -> Seq<char> {
    parts.project + seq!['/'] + parts.repository + (match parts.branch {
        Some(branch) => seq!['+'] + branch,
        None => Seq::empty(),
    }) + seq![':'] + parts.path + seq!['@'] + parts.services
}

/// No part holds a delimiter that would end it early.
pub open spec fn delimited(parts: Parts) -> bool {
    &&& avoids(parts.project, set!['/'])
    &&& avoids(parts.repository, set!['+', ':'])
    &&& parts.branch matches Some(branch) ==> avoids(branch, set![':'])
    &&& avoids(parts.path, set!['@'])
}

/// The parts are those of a specification of the grammar: no part holds a
/// delimiter that would end it early, and project, repository, path, the
/// branch where there is one, and every service name are filled.
pub open spec fn well_formed(parts: Parts) -> bool {
    &&& delimited(parts)
    &&& parts.project.len() > 0
    &&& parts.repository.len() > 0
    &&& parts.branch matches Some(branch) ==> branch.len() > 0
    &&& parts.path.len() > 0
    &&& all_filled(split(parts.services, ','))
}

/// `text` taken apart at the delimiters of the grammar: at the first `/`,
/// then at the first `+` or `:`, after a `+` at the next `:`, and at the first
/// `@` behind the `:`. `None` where one of these delimiters is missing.
/// Nothing is asked of the parts themselves: any of them may be empty.
pub open spec fn skeleton(text: Seq<char>) -> Option<Parts> {
    match cut(text, set!['/']) {
        None => None,
        Some((project, _, behind_project)) => match cut(behind_project, set!['+', ':']) {
            None => None,
            Some((repository, mark, behind_mark)) => match skeleton_branch(mark, behind_mark) {
                None => None,
                Some((branch, behind_colon)) => match cut(behind_colon, set!['@']) {
                    None => None,
                    Some((path, _, services)) => Some(
                        Parts { project, repository, branch, path, services },
                    ),
                },
            },
        },
    }
}

/// The branch of a specification and the text behind its `:`, given the
/// delimiter `mark` that ended the repository and the text `behind_mark`.
pub open spec fn skeleton_branch(mark: char, behind_mark: Seq<char>) -> Option<
    (Option<Seq<char>>, Seq<char>),
> {
    if mark == '+' {
        match cut(behind_mark, set![':']) {
            None => None,
            Some((branch, _, behind_colon)) => Some((Some(branch), behind_colon)),
        }
    } else {
        Some((None, behind_mark))
    }
}

/// `lead` stays within the text, the characters it counts are none of
/// `stops`, and the character it ends at is one of them.
pub proof fn lemma_lead(s: Seq<char>, stops: Set<char>)
    ensures
        lead(s, stops) <= s.len(),
        avoids(s.take(lead(s, stops) as int), stops),
        lead(s, stops) < s.len() ==> stops.contains(s[lead(s, stops) as int]),
    decreases s.len(),
{
    if s.len() == 0 || stops.contains(s[0]) {
    } else {
        let rest = s.drop_first();
        lemma_lead(rest, stops);
        let n = lead(rest, stops) as int;
        assert forall|i: int| 0 <= i < n + 1 implies !stops.contains(#[trigger] s.take(n + 1)[i]) by {
            if i > 0 {
                assert(s.take(n + 1)[i] == rest.take(n)[i - 1]);
            }
        }
    }
}

/// No other position has what `lemma_lead` states of `lead`.
pub proof fn lemma_lead_is(s: Seq<char>, stops: Set<char>, n: int)
    requires
        0 <= n <= s.len(),
        avoids(s.take(n), stops),
        n < s.len() ==> stops.contains(s[n]),
    ensures
        lead(s, stops) == n,
    decreases s.len(),
{
    if n > 0 {
        let rest = s.drop_first();
        assert(s.take(n)[0] == s[0]);
        assert forall|i: int| 0 <= i < n - 1 implies !stops.contains(
            #[trigger] rest.take(n - 1)[i],
        ) by {
            assert(rest.take(n - 1)[i] == s.take(n)[i + 1]);
        }
        lemma_lead_is(rest, stops, n - 1);
    }
}

/// A text that starts with `head`, goes on with a character out of `stops`
/// and ends with `tail` is cut into exactly these, where `head` holds no
/// character out of `stops`.
pub proof fn lemma_cut_concat(head: Seq<char>, stop: char, tail: Seq<char>, stops: Set<char>)
    requires
        avoids(head, stops),
        stops.contains(stop),
    ensures
        cut(head + seq![stop] + tail, stops) == Some((head, stop, tail)),
{
    let s = head + seq![stop] + tail;
    let n = head.len() as int;
    assert(s.take(n) =~= head);
    assert(s[n] == stop);
    lemma_lead_is(s, stops, n);
    assert(s.skip(n + 1) =~= tail);
}

/// What `cut` returns makes up the text again, and the text before the cut
/// holds no character out of `stops`.
pub proof fn lemma_cut_parts(s: Seq<char>, stops: Set<char>)
    ensures
        cut(s, stops) matches Some((head, stop, tail)) ==> {
            &&& s == head + seq![stop] + tail
            &&& avoids(head, stops)
            &&& stops.contains(stop)
        },
{
    lemma_lead(s, stops);
    let n = lead(s, stops) as int;
    if n < s.len() {
        assert(s =~= s.take(n) + seq![s[n]] + s.skip(n + 1));
    }
}

/// A text without a character out of `stops` cannot be cut.
pub proof fn lemma_cut_none(s: Seq<char>, stops: Set<char>)
    requires
        avoids(s, stops),
    ensures
        cut(s, stops) is None,
{
    assert(s.take(s.len() as int) =~= s);
    lemma_lead_is(s, stops, s.len() as int);
}

/// Splitting never gives an empty list, no piece holds the separator, and the
/// pieces joined by the separator are the text again.
pub proof fn lemma_split(s: Seq<char>, sep: char)
    ensures
        split(s, sep).len() > 0,
        forall|i: int| 0 <= i < split(s, sep).len() ==> avoids(#[trigger] split(s, sep)[i], set![sep]),
        join(split(s, sep), sep) == s,
    decreases s.len(),
{
    let stops = set![sep];
    lemma_lead(s, stops);
    let n = lead(s, stops) as int;
    if n < s.len() {
        let head = s.take(n);
        let tail = s.skip(n + 1);
        lemma_split(tail, sep);
        let pieces = split(s, sep);
        assert(pieces.drop_first() =~= split(tail, sep));
        assert(pieces[0] == head);
        assert forall|i: int| 0 <= i < pieces.len() implies avoids(#[trigger] pieces[i], stops) by {
            if i > 0 {
                assert(pieces[i] == split(tail, sep)[i - 1]);
            }
        }
        assert(s =~= head + seq![sep] + tail);
    } else {
        assert(s.take(n) =~= s);
    }
}

/// Pieces without the separator, at least one of them, are what splitting
/// finds in the text that joins them.
pub proof fn lemma_split_join(pieces: Seq<Seq<char>>, sep: char)
    requires
        pieces.len() > 0,
        forall|i: int| 0 <= i < pieces.len() ==> avoids(#[trigger] pieces[i], set![sep]),
    ensures
        split(join(pieces, sep), sep) == pieces,
    decreases pieces.len(),
{
    let stops = set![sep];
    let s = join(pieces, sep);
    if pieces.len() == 1 {
        lemma_cut_none(pieces[0], stops);
        assert(split(s, sep) =~= pieces);
    } else {
        let rest = pieces.drop_first();
        assert forall|i: int| 0 <= i < rest.len() implies avoids(#[trigger] rest[i], stops) by {
            assert(rest[i] == pieces[i + 1]);
        }
        lemma_split_join(rest, sep);
        lemma_cut_concat(pieces[0], sep, join(rest, sep), stops);
        assert(split(s, sep) =~= pieces);
    }
}

/// The text of a specification, put together from the right: each part is
/// followed by its delimiter and by all that comes behind it.
spec fn render_nested(parts: Parts) -> Seq<char> {
    let behind_colon = parts.path + seq!['@'] + parts.services;
    let behind_project = match parts.branch {
        Some(branch) => parts.repository + seq!['+'] + (branch + seq![':'] + behind_colon),
        None => parts.repository + seq![':'] + behind_colon,
    };
    parts.project + seq!['/'] + behind_project
}

proof fn lemma_render_nested(parts: Parts)
    ensures
        render(parts) == render_nested(parts),
{
    assert(render(parts) =~= render_nested(parts));
}

/// Taking a rendered specification apart gives back the parts it was
/// rendered from, where no part holds a delimiter that would end it early.
pub proof fn lemma_skeleton_of_render(parts: Parts)
    requires
        delimited(parts),
    ensures
        skeleton(render(parts)) == Some(parts),
{
    lemma_render_nested(parts);
    let behind_colon = parts.path + seq!['@'] + parts.services;
    lemma_cut_concat(parts.path, '@', parts.services, set!['@']);
    match parts.branch {
        Some(branch) => {
            let behind_mark = branch + seq![':'] + behind_colon;
            lemma_cut_concat(branch, ':', behind_colon, set![':']);
            lemma_cut_concat(parts.repository, '+', behind_mark, set!['+', ':']);
            lemma_cut_concat(
                parts.project,
                '/',
                parts.repository + seq!['+'] + behind_mark,
                set!['/'],
            );
        },
        None => {
            lemma_cut_concat(parts.repository, ':', behind_colon, set!['+', ':']);
            lemma_cut_concat(
                parts.project,
                '/',
                parts.repository + seq![':'] + behind_colon,
                set!['/'],
            );
        },
    }
}

/// The parts that a text is taken apart into render to that text, and none of
/// them holds a delimiter that would end it early.
pub proof fn lemma_render_of_skeleton(text: Seq<char>)
    ensures
        skeleton(text) matches Some(parts) ==> render(parts) == text && delimited(parts),
{
    if let Some(parts) = skeleton(text) {
        lemma_render_nested(parts);
        lemma_cut_parts(text, set!['/']);
        let (_, _, behind_project) = cut(text, set!['/']).unwrap();
        lemma_cut_parts(behind_project, set!['+', ':']);
        let (_, mark, behind_mark) = cut(behind_project, set!['+', ':']).unwrap();
        if mark == '+' {
            lemma_cut_parts(behind_mark, set![':']);
        }
        let (_, behind_colon) = skeleton_branch(mark, behind_mark).unwrap();
        lemma_cut_parts(behind_colon, set!['@']);
    }
}

} // verus!
