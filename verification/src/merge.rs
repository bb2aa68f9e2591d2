//! Merging the services of many compose documents into one.
//!
//! A [`MergedResult`] gathers services document by document, in the order in
//! which the documents are handed to it. It remembers the version of the
//! first document that has one, and one content for each service name: the
//! one that was handed to it last. [`MergedResult::finalize`] lays what was
//! gathered over a document that exists already, if there is one.
//!
//! Fetching and decoding a document can fail. A run goes on after such a
//! failure: [`MergedResult::record`] takes the outcome of an attempt, leaves
//! what was gathered untouched where the attempt failed, and hands the error
//! back for the caller to report.

use crate::compose::DockerComposeFile;
use crate::service_spec::texts;
use crate::yaml::{
    clone_mapping, insert_section, mapping_entries, mapping_other_entries, new_mapping,
    value_as_mapping,
};
use vstd::prelude::*;

verus! {

/// Why nothing could be made of what was gathered.
#[derive(Debug, Clone, Copy, PartialEq, Eq, Structural)]
pub enum MergeError {
    /// Neither a fetched document nor the existing one has a version.
    NoVersion,
}

/// What has been gathered, as mathematics: the version, once a document had
/// one, and the content kept for each service name.
#[verifier::ext_equal]
pub struct MergedView {
    pub version: Option<Seq<char>>,
    pub sections: Map<Seq<char>, serde_yaml::Mapping>,
}

/// Nothing gathered yet.
pub open spec fn nothing() -> MergedView {
    MergedView { version: None, sections: Map::empty() }
}

/// The services kept after the services `names` have been taken from
/// `document`: each of these names that the document has a service for now
/// stands for that service, and every other name for what it stood for
/// before.
pub open spec fn absorbed_sections(
    sections: Map<Seq<char>, serde_yaml::Mapping>,
    document: DockerComposeFile,
    names: Seq<Seq<char>>,
) -> Map<Seq<char>, serde_yaml::Mapping> {
    Map::new(
        |name: Seq<char>|
            sections.contains_key(name) || (names.contains(name) && document.section(name) is Some),
        |name: Seq<char>|
            if names.contains(name) && document.section(name) is Some {
                document.section(name)->0
            } else {
                sections[name]
            },
    )
}

/// What has been gathered after the services `names` have been taken from
/// `document`. A version that was there already stays; otherwise the version
/// of the document is taken, if it has one.
pub open spec fn absorbed(
    state: MergedView,
    document: DockerComposeFile,
    names: Seq<Seq<char>>,
) -> MergedView {
    MergedView {
        version: if state.version is Some {
            state.version
        } else {
            document.version_text()
        },
        sections: absorbed_sections(state.sections, document, names),
    }
}

/// One attempt to fetch a document: the services asked of it, and the
/// document, where one could be fetched and decoded.
pub struct Attempt {
    pub document: Option<DockerComposeFile>,
    pub names: Seq<Seq<char>>,
}

/// The attempt whose outcome is `fetched`.
pub open spec fn attempt_of<E>(fetched: Result<DockerComposeFile, E>, services: Vec<String>) -> Attempt {
    Attempt {
        document: match fetched {
            Ok(document) => Some(document),
            Err(_) => None,
        },
        names: texts(services@),
    }
}

/// The attempts with the given outcomes.
pub open spec fn attempts_of<E>(outcomes: Seq<(Result<DockerComposeFile, E>, Vec<String>)>) -> Seq<
    Attempt,
> {
    Seq::new(outcomes.len(), |i: int| attempt_of(outcomes[i].0, outcomes[i].1))
}

/// The errors among the given outcomes, in their order.
pub open spec fn failures_of<E>(outcomes: Seq<(Result<DockerComposeFile, E>, Vec<String>)>) -> Seq<E>
    decreases outcomes.len(),
{
    if outcomes.len() == 0 {
        Seq::empty()
    } else {
        let earlier = failures_of(outcomes.drop_last());
        match outcomes.last().0 {
            Ok(_) => earlier,
            Err(error) => earlier.push(error),
        }
    }
}

/// What has been gathered after one more attempt. A failed attempt changes
/// nothing.
pub open spec fn recorded(state: MergedView, attempt: Attempt) -> MergedView {
    match attempt.document {
        Some(document) => absorbed(state, document, attempt.names),
        None => state,
    }
}

/// What has been gathered after the given attempts, made in their order.
pub open spec fn gathered(attempts: Seq<Attempt>) -> MergedView
    decreases attempts.len(),
{
    if attempts.len() == 0 {
        nothing()
    } else {
        recorded(gathered(attempts.drop_last()), attempts.last())
    }
}

/// The version of the merged document: the one that was gathered, and where
/// none was, that of the existing document.
pub open spec fn merged_version(state: MergedView, existing: Option<DockerComposeFile>) -> Option<
    Seq<char>,
> {
    if state.version is Some {
        state.version
    } else {
        match existing {
            Some(document) => document.version_text(),
            None => None,
        }
    }
}

/// What the existing document holds under `services`, by name.
pub open spec fn existing_entries(existing: Option<DockerComposeFile>) -> Map<
    Seq<char>,
    serde_yaml::Value,
> {
    match existing {
        Some(document) => document.entries(),
        None => Map::empty(),
    }
}

/// What the existing document holds under `services` under keys that are
/// no strings.
pub open spec fn existing_other_entries(existing: Option<DockerComposeFile>) -> Map<
    serde_yaml::Value,
    serde_yaml::Value,
> {
    match existing {
        Some(document) => document.other_entries(),
        None => Map::empty(),
    }
}

/// `merged` is what was gathered in `state`, laid over `existing`: it has
/// the merged version and it has services; under every name that something
/// was gathered for it holds that content; and under every other name, and
/// under every key that is no string, it holds what the existing document
/// holds there, or nothing.
pub open spec fn is_merge(
    merged: DockerComposeFile,
    state: MergedView,
    existing: Option<DockerComposeFile>,
) -> bool {
    &&& merged.version is Some
    &&& merged.version_text() == merged_version(state, existing)
    &&& merged.services is Some
    &&& forall|name: Seq<char>| #[trigger]
        state.sections.contains_key(name) ==> merged.entries().contains_key(name)
            && merged.section(name) == Some(state.sections[name])
    &&& forall|name: Seq<char>|
        !state.sections.contains_key(name) ==> (#[trigger] merged.entries().contains_key(name)
            <==> existing_entries(existing).contains_key(name))
    &&& forall|name: Seq<char>|
        !state.sections.contains_key(name) && existing_entries(existing).contains_key(name)
            ==> #[trigger] merged.entries()[name] == existing_entries(existing)[name]
    &&& merged.other_entries() == existing_other_entries(existing)
}

/// The services gathered in a run, and the version of the merged document.
#[derive(Debug)]
pub struct MergedResult {
    selected_version: Option<String>,
    subsections: Vec<(String, serde_yaml::Mapping)>,
}

impl View for MergedResult {
    type V = MergedView;

    closed spec fn view(&self) -> MergedView {
        MergedView {
            version: match self.selected_version {
                Some(version) => Some(version@),
                None => None,
            },
            sections: sections_of(self.subsections@),
        }
    }
}

impl MergedResult {
    /// No name is kept twice. This holds of every value that the functions
    /// of this type make.
    pub closed spec fn wf(&self) -> bool {
        names_distinct(self.subsections@)
    }

    /// Nothing gathered yet.
    pub fn new() -> (merged: Self)
        ensures
            merged.wf(),
            merged@ == nothing(),
    {
        let merged = MergedResult { selected_version: None, subsections: Vec::new() };
        assert(merged@.sections =~= Map::<Seq<char>, serde_yaml::Mapping>::empty());
        merged
    }

    /// The version gathered so far.
    pub fn selected_version(&self) -> (version: Option<&String>)
        ensures
            match version {
                Some(text) => self@.version == Some(text@),
                None => self@.version is None,
            },
    {
        self.selected_version.as_ref()
    }

    /// Takes the services `services` from `document`, in their order. The
    /// version of the document is taken unless a document before it had one.
    /// A service that the document does not have is passed over; one that it
    /// has takes the place of what was kept under its name.
    pub fn absorb(&mut self, document: &DockerComposeFile, services: &Vec<String>)
        requires
            old(self).wf(),
        ensures
            final(self).wf(),
            final(self)@ == absorbed(old(self)@, *document, texts(services@)),
    {
        if self.selected_version.is_none() {
            match &document.version {
                Some(version) => {
                    self.selected_version = Some(version.clone());
                },
                None => {},
            }
        }
        let ghost names = texts(services@);
        let ghost before = old(self)@.sections;
        assert(absorbed_sections(before, *document, names.take(0)) =~= before);
        let mut i: usize = 0;
        while i < services.len()
            invariant
                i <= services.len(),
                names == texts(services@),
                names_distinct(self.subsections@),
                self@.version == absorbed(old(self)@, *document, names).version,
                self@.sections == absorbed_sections(before, *document, names.take(i as int)),
            decreases services.len() - i,
        {
            proof {
                lemma_absorb_one_more(before, *document, names, i as int);
            }
            match document.get_service(services[i].as_str()) {
                Some(content) => {
                    put_entry(&mut self.subsections, services[i].clone(), clone_mapping(content));
                },
                None => {},
            }
            i += 1;
        }
        assert(names.take(names.len() as int) =~= names);
    }

    /// Takes the outcome of an attempt to fetch a document that `services`
    /// were asked of. A document is absorbed; an error leaves what was
    /// gathered as it is and is handed back, for the caller to report.
    pub fn record<E>(
        &mut self,
        fetched: Result<DockerComposeFile, E>,
        services: &Vec<String>,
    ) -> (report: Option<E>)
        requires
            old(self).wf(),
        ensures
            final(self).wf(),
            final(self)@ == recorded(old(self)@, attempt_of(fetched, *services)),
            report == match fetched {
                Ok(_) => None,
                Err(error) => Some(error),
            },
    {
        match fetched {
            Ok(document) => {
                self.absorb(&document, services);
                None
            },
            Err(error) => Some(error),
        }
    }

    /// Gathers from the outcomes of a whole run, taken in their order, and
    /// returns what was gathered together with the errors of the attempts
    /// that failed. The order of the outcomes decides which version is
    /// taken and which content is kept for a name, so outcomes that came in
    /// out of order have to be put back into the order of their
    /// specifications first.
    pub fn gather<E>(outcomes: Vec<(Result<DockerComposeFile, E>, Vec<String>)>) -> (result: (
        Self,
        Vec<E>,
    ))
        ensures
            result.0.wf(),
            result.0@ == gathered(attempts_of(outcomes@)),
            result.1@ == failures_of(outcomes@),
    {
        let mut merged = MergedResult::new();
        let mut failures: Vec<E> = Vec::new();
        let ghost all = outcomes@;
        for outcome in it: outcomes
            invariant
                it.seq() == all,
                merged.wf(),
                merged@ == gathered(attempts_of(all.take(it.index() as int))),
                failures@ == failures_of(all.take(it.index() as int)),
        {
            let ghost n = it.index() as int;
            proof {
                assert(all.take(n + 1).drop_last() =~= all.take(n));
                assert(attempts_of(all.take(n + 1)).drop_last() =~= attempts_of(all.take(n)));
            }
            let (fetched, services) = outcome;
            match merged.record(fetched, &services) {
                Some(error) => {
                    failures.push(error);
                },
                None => {},
            }
        }
        proof {
            assert(all.take(all.len() as int) =~= all);
        }
        (merged, failures)
    }

    /// Makes one document of what was gathered and of `existing`, the
    /// document that is there already, if there is one.
    ///
    /// The version is the one gathered, and the version of `existing` where
    /// none was gathered; where there is neither, there is no document to
    /// make. The services are those of `existing`, with every service that
    /// was gathered put in: in place of the one of the same name, where
    /// `existing` has one.
    pub fn finalize(self, existing: Option<DockerComposeFile>) -> (result: Result<
        DockerComposeFile,
        MergeError,
    >)
        requires
            self.wf(),
        ensures
            match result {
                Ok(merged) => is_merge(merged, self@, existing),
                Err(error) => error == MergeError::NoVersion && merged_version(self@, existing)
                    is None,
            },
    {
        let ghost state = self@;
        let ghost list = self.subsections@;
        let ghost kept = existing_entries(existing);
        let ghost others = existing_other_entries(existing);
        let MergedResult { selected_version, subsections } = self;
        let (existing_version, existing_services) = match existing {
            Some(document) => (document.version, document.services),
            None => (None, None),
        };
        let version = match selected_version {
            Some(version) => version,
            None => match existing_version {
                Some(version) => version,
                None => {
                    return Err(MergeError::NoVersion);
                },
            },
        };
        let mut services = match existing_services {
            Some(services) => services,
            None => new_mapping(),
        };
        assert(mapping_entries(services) =~= kept);
        assert(mapping_other_entries(services) =~= others);
        for entry in it: subsections
            invariant
                it.seq() == list,
                names_distinct(list),
                mapping_other_entries(services) == others,
                forall|k: int|
                    0 <= k < it.index() ==> mapping_entries(services).contains_key(
                        (#[trigger] list[k]).0@,
                    ) && value_as_mapping(mapping_entries(services)[list[k].0@]) == Some(list[k].1),
                forall|name: Seq<char>|
                    (forall|k: int| 0 <= k < it.index() ==> !named(list, name, k)) ==> (
                    #[trigger] mapping_entries(services).contains_key(name) <==> kept.contains_key(
                        name,
                    )),
                forall|name: Seq<char>|
                    (forall|k: int| 0 <= k < it.index() ==> !named(list, name, k))
                        && kept.contains_key(name) ==> #[trigger] mapping_entries(services)[name]
                        == kept[name],
        {
            let ghost n = it.index() as int;
            let ghost before = mapping_entries(services);
            let (name, content) = entry;
            insert_section(&mut services, name.as_str(), content);
            proof {
                assert forall|k: int| 0 <= k < n + 1 implies mapping_entries(services).contains_key(
                    (#[trigger] list[k]).0@,
                ) && value_as_mapping(mapping_entries(services)[list[k].0@]) == Some(list[k].1) by {
                    if k < n {
                        assert(list[k].0@ != list[n].0@);
                    }
                }
                assert forall|name: Seq<char>|
                    (forall|k: int| 0 <= k < n + 1 ==> !named(list, name, k)) implies (
                #[trigger] mapping_entries(services).contains_key(name) <==> kept.contains_key(
                    name,
                )) by {
                    assert(!named(list, name, n));
                    assert forall|k: int| 0 <= k < n implies !named(list, name, k) by {}
                    assert(before.contains_key(name) <==> kept.contains_key(name));
                }
                assert forall|name: Seq<char>|
                    (forall|k: int| 0 <= k < n + 1 ==> !named(list, name, k)) && kept.contains_key(
                        name,
                    ) implies #[trigger] mapping_entries(services)[name] == kept[name] by {
                    assert(!named(list, name, n));
                    assert forall|k: int| 0 <= k < n implies !named(list, name, k) by {}
                    assert(before[name] == kept[name]);
                }
            }
        }
        let merged = DockerComposeFile { version: Some(version), services: Some(services) };
        proof {
            assert forall|name: Seq<char>| #[trigger]
                state.sections.contains_key(name) implies merged.entries().contains_key(name)
                && merged.section(name) == Some(state.sections[name]) by {
                let k = choose|k: int| named(list, name, k);
                lemma_section_at(list, k);
            }
            assert forall|name: Seq<char>| !state.sections.contains_key(name) implies (forall|k: int|
                0 <= k < list.len() ==> !named(list, name, k)) by {}
        }
        Ok(merged)
    }
}

/// `name` is the name of the entry at position `i` of `list`.
spec fn named(list: Seq<(String, serde_yaml::Mapping)>, name: Seq<char>, i: int) -> bool {
    0 <= i < list.len() && list[i].0@ == name
}

/// No two entries of `list` have the same name.
spec fn names_distinct(list: Seq<(String, serde_yaml::Mapping)>) -> bool {
    forall|i: int, j: int|
        0 <= i < list.len() && 0 <= j < list.len() && i != j ==> (#[trigger] list[i]).0@
            != (#[trigger] list[j]).0@
}

/// The contents of the entries of `list`, by their names.
spec fn sections_of(list: Seq<(String, serde_yaml::Mapping)>) -> Map<
    Seq<char>,
    serde_yaml::Mapping,
> {
    Map::new(
        |name: Seq<char>| exists|i: int| named(list, name, i),
        |name: Seq<char>| list[choose|i: int| named(list, name, i)].1,
    )
}

/// In a list without a name twice, the entry with a given name is found at
/// one position only, and `sections_of` has its content.
proof fn lemma_section_at(list: Seq<(String, serde_yaml::Mapping)>, i: int)
    requires
        names_distinct(list),
        0 <= i < list.len(),
    ensures
        sections_of(list).contains_key(list[i].0@),
        sections_of(list)[list[i].0@] == list[i].1,
{
    let name = list[i].0@;
    assert(named(list, name, i));
    let j = choose|j: int| named(list, name, j);
    assert(list[j].0@ == list[i].0@);
}

/// Puts `content` under `name` into `list`: in place of the entry with that
/// name, or as a new entry behind the others.
fn put_entry(
    list: &mut Vec<(String, serde_yaml::Mapping)>,
    name: String,
    content: serde_yaml::Mapping,
)
    requires
        names_distinct(old(list)@),
    ensures
        names_distinct(final(list)@),
        sections_of(final(list)@) == sections_of(old(list)@).insert(name@, content),
{
    let mut i: usize = 0;
    while i < list.len()
        invariant
            i <= list.len(),
            *list == *old(list),
            names_distinct(list@),
            forall|k: int| 0 <= k < i ==> !named(list@, name@, k),
        decreases list.len() - i,
    {
        if list[i].0 == name {
            let ghost before = list@;
            list.set(i, (name, content));
            proof {
                let after = list@;
                assert forall|k: int| 0 <= k < after.len() implies (#[trigger] after[k]).0@
                    == before[k].0@ by {}
                assert forall|n: Seq<char>, k: int| named(after, n, k) == named(before, n, k) by {}
                assert(names_distinct(after)) by {
                    assert forall|a: int, b: int|
                        0 <= a < after.len() && 0 <= b < after.len() && a != b implies (
                    #[trigger] after[a]).0@ != (#[trigger] after[b]).0@ by {
                        assert(before[a].0@ != before[b].0@);
                    }
                }
                assert forall|n: Seq<char>| #[trigger]
                    sections_of(after).contains_key(n) == sections_of(before).insert(
                        name@,
                        content,
                    ).contains_key(n) by {
                    assert(named(before, name@, i as int));
                    if n == name@ {
                        assert(named(after, n, i as int));
                    }
                }
                assert forall|n: Seq<char>| sections_of(after).contains_key(n) implies #[trigger]
                    sections_of(after)[n] == sections_of(before).insert(name@, content)[n] by {
                    let k = choose|k: int| named(after, n, k);
                    lemma_section_at(after, k);
                    lemma_section_at(before, k);
                }
                assert(sections_of(after) =~= sections_of(before).insert(name@, content));
            }
            return;
        }
        i += 1;
    }
    let ghost before = list@;
    list.push((name, content));
    proof {
        let after = list@;
        let last = before.len() as int;
        assert forall|n: Seq<char>, k: int| named(after, n, k) == (named(before, n, k) || (k == last
            && n == name@)) by {}
        assert(names_distinct(after)) by {
            assert forall|a: int, b: int|
                0 <= a < after.len() && 0 <= b < after.len() && a != b implies (#[trigger] after[a]).0@
                != (#[trigger] after[b]).0@ by {
                if a < last && b < last {
                    assert(before[a].0@ != before[b].0@);
                } else if a < last {
                    assert(!named(before, name@, a));
                } else {
                    assert(!named(before, name@, b));
                }
            }
        }
        assert forall|n: Seq<char>| #[trigger]
            sections_of(after).contains_key(n) == sections_of(before).insert(
                name@,
                content,
            ).contains_key(n) by {
            if n == name@ {
                assert(named(after, n, last));
            }
        }
        assert forall|n: Seq<char>| sections_of(after).contains_key(n) implies #[trigger]
            sections_of(after)[n] == sections_of(before).insert(name@, content)[n] by {
            let k = choose|k: int| named(after, n, k);
            lemma_section_at(after, k);
            if k < last {
                lemma_section_at(before, k);
            }
        }
        assert(sections_of(after) =~= sections_of(before).insert(name@, content));
    }
}

/// Taking one more name from a document: the name is put in where the
/// document has a service for it, and passed over where it has none.
proof fn lemma_absorb_one_more(
    sections: Map<Seq<char>, serde_yaml::Mapping>,
    document: DockerComposeFile,
    names: Seq<Seq<char>>,
    n: int,
)
    requires
        0 <= n < names.len(),
    ensures
        absorbed_sections(sections, document, names.take(n + 1)) == match document.section(names[n]) {
            Some(content) => absorbed_sections(sections, document, names.take(n)).insert(
                names[n],
                content,
            ),
            None => absorbed_sections(sections, document, names.take(n)),
        },
{
    let fewer = names.take(n);
    let more = names.take(n + 1);
    assert forall|name: Seq<char>| more.contains(name) == (fewer.contains(name) || name == names[n]) by {
        if fewer.contains(name) {
            let i = choose|i: int| 0 <= i < fewer.len() && fewer[i] == name;
            assert(more[i] == name);
        }
        if name == names[n] {
            assert(more[n] == name);
        }
        if more.contains(name) {
            let i = choose|i: int| 0 <= i < more.len() && more[i] == name;
            if i < n {
                assert(fewer[i] == name);
            }
        }
    }
    let expected = match document.section(names[n]) {
        Some(content) => absorbed_sections(sections, document, fewer).insert(names[n], content),
        None => absorbed_sections(sections, document, fewer),
    };
    assert(absorbed_sections(sections, document, more) =~= expected);
}

/// Taking the same services from the same document a second time changes
/// nothing.
pub proof fn lemma_absorb_twice(
    state: MergedView,
    document: DockerComposeFile,
    names: Seq<Seq<char>>,
)
    ensures
        absorbed(absorbed(state, document, names), document, names) == absorbed(
            state,
            document,
            names,
        ),
{
    let once = absorbed(state, document, names);
    assert(absorbed(once, document, names).sections =~= once.sections);
}

/// An attempt made a second time right after the first changes nothing.
pub proof fn lemma_attempt_twice(attempts: Seq<Attempt>, again: Attempt)
    ensures
        gathered(attempts.push(again).push(again)) == gathered(attempts.push(again)),
{
    let once = attempts.push(again);
    let twice = once.push(again);
    assert(once.drop_last() =~= attempts);
    assert(twice.drop_last() =~= once);
    if let Some(document) = again.document {
        lemma_absorb_twice(gathered(attempts), document, again.names);
    }
}

/// The version that is gathered is that of the first document that has one:
/// attempts that failed, and documents without a version, do not count, and
/// no later document changes it.
pub proof fn lemma_first_version_wins(attempts: Seq<Attempt>, first: int)
    requires
        0 <= first < attempts.len(),
        attempts[first].document matches Some(document) && document.version is Some,
        forall|i: int|
            0 <= i < first ==> ((#[trigger] attempts[i]).document matches Some(document)
                ==> document.version is None),
    ensures
        gathered(attempts).version == attempts[first].document->0.version_text(),
    decreases attempts.len(),
{
    let earlier = attempts.drop_last();
    if first == attempts.len() - 1 {
        lemma_no_version_yet(earlier);
    } else {
        assert(earlier[first] == attempts[first]);
        assert forall|i: int| 0 <= i < first implies ((#[trigger] earlier[i]).document matches Some(
            document,
        ) ==> document.version is None) by {
            assert(earlier[i] == attempts[i]);
        }
        lemma_first_version_wins(earlier, first);
    }
}

/// No version is gathered from attempts none of which brought a document
/// with a version.
pub proof fn lemma_no_version_yet(attempts: Seq<Attempt>)
    requires
        forall|i: int|
            0 <= i < attempts.len() ==> ((#[trigger] attempts[i]).document matches Some(document)
                ==> document.version is None),
    ensures
        gathered(attempts).version is None,
    decreases attempts.len(),
{
    if attempts.len() > 0 {
        let earlier = attempts.drop_last();
        assert forall|i: int| 0 <= i < earlier.len() implies ((#[trigger] earlier[i]).document matches Some(
            document,
        ) ==> document.version is None) by {
            assert(earlier[i] == attempts[i]);
        }
        lemma_no_version_yet(earlier);
        assert(attempts.last() == attempts[attempts.len() - 1]);
    }
}

/// A name that the document has no service for is passed over: what is kept
/// under that name stays as it was, and where nothing was kept, nothing is.
pub proof fn lemma_missing_service_skipped(
    state: MergedView,
    document: DockerComposeFile,
    names: Seq<Seq<char>>,
    name: Seq<char>,
)
    requires
        document.section(name) is None,
    ensures
        absorbed(state, document, names).sections.contains_key(name)
            == state.sections.contains_key(name),
        state.sections.contains_key(name) ==> absorbed(state, document, names).sections[name]
            == state.sections[name],
{
}

/// A service that was asked of a document which has it is kept with the
/// content it has in that document, whatever was kept under its name before.
pub proof fn lemma_later_overwrites(
    state: MergedView,
    document: DockerComposeFile,
    names: Seq<Seq<char>>,
    name: Seq<char>,
)
    requires
        names.contains(name),
        document.section(name) is Some,
    ensures
        absorbed(state, document, names).sections.contains_key(name),
        Some(absorbed(state, document, names).sections[name]) == document.section(name),
{
}

/// In the merged document a service that was gathered has the content that
/// was gathered, whatever the existing document holds under its name; every
/// other service is as in the existing document.
pub proof fn lemma_gathered_overrides_existing(
    merged: DockerComposeFile,
    state: MergedView,
    existing: Option<DockerComposeFile>,
    name: Seq<char>,
)
    requires
        is_merge(merged, state, existing),
    ensures
        state.sections.contains_key(name) ==> merged.section(name) == Some(state.sections[name]),
        !state.sections.contains_key(name) ==> merged.section(name) == match existing {
            Some(document) => document.section(name),
            None => None,
        },
{
    if !state.sections.contains_key(name) {
        assert(merged.entries().contains_key(name) == existing_entries(existing).contains_key(
            name,
        ));
        if existing_entries(existing).contains_key(name) {
            assert(merged.entries()[name] == existing_entries(existing)[name]);
        }
    }
}

} // verus!
