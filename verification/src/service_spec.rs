//! Service specifications: which services to take from which file.
//!
//! [`ComposeServiceGithubSpec::parse`] reads a specification such as
//! `owner/repo+branch:compose.yml@db,cache`. What it returns for every text
//! is laid down by [`parsed`], over the grammar of [`crate::grammar`].

use crate::grammar::{
    all_filled, avoids, cut, join, lead, lemma_lead_is, lemma_render_of_skeleton,
    lemma_skeleton_of_render, lemma_split, lemma_split_join, render, skeleton, split,
    well_formed, Parts,
};
use crate::locator::GithubFileSpec;
use vstd::prelude::*;
use vstd::string::StrSliceExecFns;

verus! {

/// A part of a specification that must not be empty.
#[derive(Debug, Clone, Copy, PartialEq, Eq, Structural)]
pub enum Field {
    Project,
    Repository,
    Path,
    Services,
}

/// Why a text is no service specification.
#[derive(Debug, Clone, Copy, PartialEq, Eq, Structural)]
pub enum ParseError {
    /// The text has not the shape `project/repository[+branch]:path@services`:
    /// a delimiter is missing, or the branch or one of the service names is
    /// empty.
    NoMatch,
    /// The delimiters are all there, but the named part between them is
    /// empty. Where several parts are empty, the first of them in the order
    /// project, repository, path, services is named.
    MissingField(Field),
}

/// A file on GitHub together with the services wanted from it, in the order
/// in which they were asked for.
#[derive(Debug, Clone)]
pub struct ComposeServiceGithubSpec<S> {
    pub spec: GithubFileSpec<S>,
    pub services: Vec<S>,
}

/// What a [`ComposeServiceGithubSpec`] holds, as text.
pub struct ServiceSpecView {
    pub project: Seq<char>,
    pub repository: Seq<char>,
    pub branch: Seq<char>,
    pub filepath: Seq<char>,
    pub services: Seq<Seq<char>>,
}

impl ServiceSpecView {
    /// What holds of everything that parsing returns: project, repository
    /// and path are filled, at least one service is asked for, every service
    /// name is filled, and no part holds a delimiter that would have ended it.
    pub open spec fn valid(self) -> bool {
        &&& self.project.len() > 0
        &&& avoids(self.project, set!['/'])
        &&& self.repository.len() > 0
        &&& avoids(self.repository, set!['+', ':'])
        &&& avoids(self.branch, set![':'])
        &&& self.filepath.len() > 0
        &&& avoids(self.filepath, set!['@'])
        &&& self.services.len() > 0
        &&& all_filled(self.services)
        &&& forall|i: int|
            0 <= i < self.services.len() ==> avoids(#[trigger] self.services[i], set![','])
    }
}

/// The texts of a list of strings.
pub open spec fn texts(strings: Seq<String>) -> Seq<Seq<char>> {
    Seq::new(strings.len(), |i: int| strings[i]@)
}

impl View for ComposeServiceGithubSpec<String> {
    type V = ServiceSpecView;

    open spec fn view(&self) -> ServiceSpecView {
        ServiceSpecView {
            project: self.spec.project@,
            repository: self.spec.repository@,
            branch: self.spec.branch@,
            filepath: self.spec.filepath@,
            services: texts(self.services@),
        }
    }
}

/// The branch that a specification without one stands for.
pub open spec fn default_branch() -> Seq<char> {
    "master"@
}

/// The branch that a specification names: the text of its branch part, all
/// that stands between the `+` and the `:`, and [`default_branch`] where it
/// has no branch part.
pub open spec fn branch_name(branch: Option<Seq<char>>) -> Seq<char> {
    match branch {
        Some(text) => text,
        None => default_branch(),
    }
}

/// What is asked for by a specification with the given parts.
pub open spec fn request_of(parts: Parts) -> ServiceSpecView {
    ServiceSpecView {
        project: parts.project,
        repository: parts.repository,
        branch: branch_name(parts.branch),
        filepath: parts.path,
        services: split(parts.services, ','),
    }
}

/// The result of parsing `text`.
pub open spec fn parsed(text: Seq<char>) -> Result<ServiceSpecView, ParseError> {
    match skeleton(text) {
        None => Err(ParseError::NoMatch),
        Some(parts) => if parts.project.len() == 0 {
            Err(ParseError::MissingField(Field::Project))
        } else if parts.repository.len() == 0 {
            Err(ParseError::MissingField(Field::Repository))
        } else if parts.path.len() == 0 {
            Err(ParseError::MissingField(Field::Path))
        } else if parts.services.len() == 0 {
            Err(ParseError::MissingField(Field::Services))
        } else if !well_formed(parts) {
            Err(ParseError::NoMatch)
        } else {
            Ok(request_of(parts))
        },
    }
}

/// `text` is a specification of the grammar.
pub open spec fn in_grammar(text: Seq<char>) -> bool {
    exists|parts: Parts| well_formed(parts) && render(parts) == text
}

/// Parsing a specification of the grammar succeeds and recovers exactly what
/// it was written from: project, repository and path as they stand between
/// the delimiters, the service names as they stand between the commas, and
/// the branch that the branch part names.
pub proof fn lemma_parse_recovers(
    project: Seq<char>,
    repository: Seq<char>,
    branch: Option<Seq<char>>,
    path: Seq<char>,
    names: Seq<Seq<char>>,
)
    requires
        project.len() > 0 && avoids(project, set!['/']),
        repository.len() > 0 && avoids(repository, set!['+', ':']),
        branch matches Some(text) ==> text.len() > 0 && avoids(text, set![':']),
        path.len() > 0 && avoids(path, set!['@']),
        names.len() > 0,
        forall|i: int|
            0 <= i < names.len() ==> (#[trigger] names[i]).len() > 0 && avoids(
                names[i],
                set![','],
            ),
    ensures
        parsed(render(Parts { project, repository, branch, path, services: join(names, ',') }))
            == Ok::<ServiceSpecView, ParseError>(
            ServiceSpecView {
                project,
                repository,
                branch: branch_name(branch),
                filepath: path,
                services: names,
            },
        ),
{
    let parts = Parts { project, repository, branch, path, services: join(names, ',') };
    lemma_split_join(names, ',');
    if parts.services.len() == 0 {
        assert(split(parts.services, ',')[0].len() == 0);
    }
    lemma_skeleton_of_render(parts);
}

/// Parsing succeeds on the specifications of the grammar and on no other
/// text, and what it returns is what is asked for by the parts of the text.
pub proof fn lemma_parse_exact(text: Seq<char>)
    ensures
        parsed(text) is Ok <==> in_grammar(text),
        parsed(text) is Ok ==> {
            &&& skeleton(text) matches Some(parts)
            &&& well_formed(parts)
            &&& render(parts) == text
            &&& parsed(text) == Ok::<ServiceSpecView, ParseError>(request_of(parts))
        },
{
    lemma_render_of_skeleton(text);
    if in_grammar(text) {
        let parts = choose|parts: Parts| well_formed(parts) && render(parts) == text;
        lemma_skeleton_of_render(parts);
        if parts.services.len() == 0 {
            assert(split(parts.services, ',')[0].len() == 0);
        }
    }
}

/// What parsing returns is valid.
pub proof fn lemma_parsed_valid(text: Seq<char>)
    ensures
        parsed(text) matches Ok(request) ==> request.valid(),
{
    lemma_parse_exact(text);
    if parsed(text) is Ok {
        let parts = skeleton(text)->0;
        lemma_split(parts.services, ',');
        if parts.branch is None {
            reveal_strlit("master");
        }
    }
}

/// The text of a specification that names its branch.
pub open spec fn spelled_with_branch(request: ServiceSpecView) -> Seq<char> {
    request.project + seq!['/'] + request.repository + seq!['+'] + request.branch + seq![':']
        + request.filepath + seq!['@'] + join(request.services, ',')
}

/// The text of a specification that leaves its branch out.
pub open spec fn spelled_without_branch(request: ServiceSpecView) -> Seq<char> {
    request.project + seq!['/'] + request.repository + seq![':'] + request.filepath + seq!['@']
        + join(request.services, ',')
}

/// What parsing returns spells the text that was parsed: nothing of the text
/// is dropped, added or moved. Either the text names the branch that is
/// returned, or it names none and the branch returned is [`default_branch`].
pub proof fn lemma_parse_round_trip(text: Seq<char>)
    ensures
        parsed(text) matches Ok(request) ==> text == spelled_with_branch(request) || (
        request.branch == default_branch() && text == spelled_without_branch(request)),
{
    lemma_parse_exact(text);
    if parsed(text) is Ok {
        let parts = skeleton(text)->0;
        let request = request_of(parts);
        lemma_split(parts.services, ',');
        match parts.branch {
            Some(branch) => {
                assert(render(parts) =~= spelled_with_branch(request));
            },
            None => {
                assert(render(parts) =~= spelled_without_branch(request));
            },
        }
    }
}

impl ParseError {
    /// The error in words.
    pub fn message(&self) -> (text: String)
        ensures
            text@ == match *self {
                ParseError::NoMatch => "not of the form project/repository[+branch]:path@services"@,
                ParseError::MissingField(Field::Project) => "project/user is not specified"@,
                ParseError::MissingField(Field::Repository) => "repository is not specified"@,
                ParseError::MissingField(Field::Path) => "path is not specified"@,
                ParseError::MissingField(Field::Services) => "no services are specified"@,
            },
    {
        let text = match self {
            ParseError::NoMatch => "not of the form project/repository[+branch]:path@services",
            ParseError::MissingField(Field::Project) => "project/user is not specified",
            ParseError::MissingField(Field::Repository) => "repository is not specified",
            ParseError::MissingField(Field::Path) => "path is not specified",
            ParseError::MissingField(Field::Services) => "no services are specified",
        };
        text.to_owned()
    }
}

/// The characters of `s`.
fn chars_of(s: &str) -> (text: Vec<char>)
    ensures
        text@ == s@,
{
    let mut text: Vec<char> = Vec::new();
    for c in it: s.chars()
        invariant
            it.seq() == s@,
            text@ == it.seq().take(it.index() as int),
    {
        text.push(c);
    }
    text
}

/// The characters of `s` from position `from` up to position `to`, as a
/// string of their own.
fn slice(s: &str, from: usize, to: usize) -> (piece: String)
    requires
        from <= to <= s@.len(),
    ensures
        piece@ == s@.subrange(from as int, to as int),
{
    s.substring_char(from, to).to_owned()
}

/// The position of the first `a` or `b` in `text` at or behind `from`; the
/// length of `text` where there is none.
fn scan(text: &Vec<char>, from: usize, a: char, b: char) -> (at: usize)
    requires
        from <= text.len(),
    ensures
        from <= at <= text.len(),
        at - from == lead(text@.skip(from as int), set![a, b]),
        at < text.len() ==> text@[at as int] == a || text@[at as int] == b,
        at < text.len() ==> cut(text@.skip(from as int), set![a, b]) == Some(
            (text@.subrange(from as int, at as int), text@[at as int], text@.skip(at + 1)),
        ),
        at == text.len() ==> cut(text@.skip(from as int), set![a, b]) is None,
{
    let mut at = from;
    while at < text.len() && text[at] != a && text[at] != b
        invariant
            from <= at <= text.len(),
            forall|i: int| from <= i < at ==> text@[i] != a && text@[i] != b,
        decreases text.len() - at,
    {
        at += 1;
    }
    proof {
        let rest = text@.skip(from as int);
        let n = at - from;
        assert forall|i: int| 0 <= i < n implies !set![a, b].contains(#[trigger] rest.take(n)[i]) by {
            assert(rest.take(n)[i] == text@[from + i]);
        }
        lemma_lead_is(rest, set![a, b], n);
        assert(rest.take(n) =~= text@.subrange(from as int, at as int));
        if at < text.len() {
            assert(rest.skip(n + 1) =~= text@.skip(at + 1));
        }
    }
    at
}

/// The position of the first `a` in `text` at or behind `from`; the length of
/// `text` where there is none.
fn scan_one(text: &Vec<char>, from: usize, a: char) -> (at: usize)
    requires
        from <= text.len(),
    ensures
        from <= at <= text.len(),
        at - from == lead(text@.skip(from as int), set![a]),
        at < text.len() ==> cut(text@.skip(from as int), set![a]) == Some(
            (text@.subrange(from as int, at as int), a, text@.skip(at + 1)),
        ),
        at == text.len() ==> cut(text@.skip(from as int), set![a]) is None,
{
    assert(set![a, a] =~= set![a]);
    scan(text, from, a, a)
}

/// Where the delimiters of a specification stand in its text: the `/`, the
/// `+` or `:` that ends the repository, the `:` and the `@`. The
/// specification has a branch where `mark` stands before `colon`.
struct Layout {
    slash: usize,
    mark: usize,
    colon: usize,
    at: usize,
}

impl Layout {
    /// The delimiters stand in their order, inside a text of length `len`.
    spec fn fits(&self, len: nat) -> bool {
        self.slash < self.mark <= self.colon < self.at < len
    }

    /// The parts that the delimiters divide `text` into.
    spec fn parts(&self, text: Seq<char>) -> Parts {
        Parts {
            project: text.subrange(0, self.slash as int),
            repository: text.subrange(self.slash + 1, self.mark as int),
            branch: if self.mark < self.colon {
                Some(text.subrange(self.mark + 1, self.colon as int))
            } else {
                None
            },
            path: text.subrange(self.colon + 1, self.at as int),
            services: text.skip(self.at + 1),
        }
    }
}

/// Finds the delimiters of a specification in `text`.
fn layout(text: &Vec<char>) -> (found: Option<Layout>)
    ensures
        match found {
            Some(l) => l.fits(text@.len()) && skeleton(text@) == Some(l.parts(text@)),
            None => skeleton(text@) is None,
        },
{
    let len = text.len();
    assert(text@.skip(0) =~= text@);
    let slash = scan_one(text, 0, '/');
    if slash == len {
        return None;
    }
    let mark = scan(text, slash + 1, '+', ':');
    if mark == len {
        return None;
    }
    let colon = if text[mark] == '+' {
        scan_one(text, mark + 1, ':')
    } else {
        mark
    };
    if colon == len {
        return None;
    }
    let at = scan_one(text, colon + 1, '@');
    if at == len {
        return None;
    }
    Some(Layout { slash, mark, colon, at })
}

/// The names between the separators `,` of what follows position `from` in
/// `s`, whose characters are `text`; `None` where one of them is empty.
fn names(s: &str, text: &Vec<char>, from: usize) -> (found: Option<Vec<String>>)
    requires
        s@ == text@,
        from <= text.len(),
    ensures
        match found {
            Some(list) => texts(list@) == split(text@.skip(from as int), ',') && all_filled(
                texts(list@),
            ),
            None => !all_filled(split(text@.skip(from as int), ',')),
        },
{
    let ghost all = split(text@.skip(from as int), ',');
    let mut list: Vec<String> = Vec::new();
    let mut start = from;
    loop
        invariant
            s@ == text@,
            from <= start <= text.len(),
            all == split(text@.skip(from as int), ','),
            all == texts(list@) + split(text@.skip(start as int), ','),
            all_filled(texts(list@)),
        decreases text.len() - start,
    {
        let end = scan_one(text, start, ',');
        let ghost rest = split(text@.skip(start as int), ',');
        let ghost found = texts(list@);
        proof {
            assert(text@.skip(start as int).take(end - start) =~= text@.subrange(
                start as int,
                end as int,
            ));
            assert(rest[0] == text@.subrange(start as int, end as int));
            assert(all[found.len() as int] == rest[0]);
        }
        if end == start {
            return None;
        }
        list.push(slice(s, start, end));
        proof {
            assert(texts(list@) =~= found.push(rest[0]));
        }
        if end == text.len() {
            proof {
                assert(rest =~= seq![rest[0]]);
                assert(all =~= texts(list@));
            }
            return Some(list);
        }
        proof {
            assert(text@.skip(start as int).skip(end - start + 1) =~= text@.skip(end + 1));
            assert(all =~= texts(list@) + split(text@.skip(end + 1), ','));
        }
        start = end + 1;
    }
}

impl ComposeServiceGithubSpec<String> {
    /// Reads a service specification.
    ///
    /// The text is taken apart at its first `/`, at the first `+` or `:`
    /// behind it, after a `+` at the next `:`, and at the first `@` behind
    /// the `:`; what follows the `@` is divided at every `,`. Nothing is
    /// trimmed and no name is dropped. The branch is all that stands between
    /// the `+` and the `:`, and `master` where there is no branch part.
    pub fn parse(s: &str) -> (result: Result<Self, ParseError>)
        ensures
            match result {
                Ok(spec) => {
                    &&& parsed(s@) == Ok::<ServiceSpecView, ParseError>(spec@)
                    &&& spec@.valid()
                    &&& s@ == spelled_with_branch(spec@) || (spec@.branch == default_branch() && s@
                        == spelled_without_branch(spec@))
                },
                Err(error) => parsed(s@) == Err::<ServiceSpecView, ParseError>(error),
            },
    {
        proof {
            lemma_parsed_valid(s@);
            lemma_parse_round_trip(s@);
        }
        let text = chars_of(s);
        let l = match layout(&text) {
            Some(l) => l,
            None => {
                return Err(ParseError::NoMatch);
            },
        };
        proof {
            lemma_render_of_skeleton(text@);
        }
        if l.slash == 0 {
            return Err(ParseError::MissingField(Field::Project));
        }
        if l.mark == l.slash + 1 {
            return Err(ParseError::MissingField(Field::Repository));
        }
        if l.at == l.colon + 1 {
            return Err(ParseError::MissingField(Field::Path));
        }
        if l.at + 1 == text.len() {
            return Err(ParseError::MissingField(Field::Services));
        }
        if l.mark + 1 == l.colon {
            return Err(ParseError::NoMatch);
        }
        let services = match names(s, &text, l.at + 1) {
            Some(services) => services,
            None => {
                return Err(ParseError::NoMatch);
            },
        };
        let branch = if l.mark < l.colon {
            slice(s, l.mark + 1, l.colon)
        } else {
            "master".to_owned()
        };
        let spec = GithubFileSpec::new(
            slice(s, 0, l.slash),
            slice(s, l.slash + 1, l.mark),
            branch,
            slice(s, l.colon + 1, l.at),
        );
        Ok(ComposeServiceGithubSpec { spec, services })
    }
}

impl core::str::FromStr for ComposeServiceGithubSpec<String> {
    type Err = ParseError;

    fn from_str(s: &str) -> (result: Result<Self, ParseError>)
        ensures
            match result {
                Ok(spec) => {
                    &&& parsed(s@) == Ok::<ServiceSpecView, ParseError>(spec@)
                    &&& spec@.valid()
                    &&& s@ == spelled_with_branch(spec@) || (spec@.branch == default_branch() && s@
                        == spelled_without_branch(spec@))
                },
                Err(error) => parsed(s@) == Err::<ServiceSpecView, ParseError>(error),
            },
    {
        ComposeServiceGithubSpec::parse(s)
    }
}

} // verus!
