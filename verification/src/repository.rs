//! A dictionary repository held in memory: the files of one directory, each
//! with its name and its text, in the order in which the directory lists them.
use vstd::prelude::*;

verus! {

/// What a repository holds: a name and a text for each file, in directory order.
pub type Listing = Seq<(Seq<char>, Seq<char>)>;

/// No two files of the listing have the same name.
pub open spec fn distinct_names(files: Listing) -> bool {
    forall|i: int, j: int| 0 <= i < j < files.len() ==> files[i].0 != files[j].0
}

/// The names of the files, in directory order.
pub open spec fn names_of(files: Listing) -> Seq<Seq<char>> {
    Seq::new(files.len(), |i: int| files[i].0)
}

/// Whether a file of that name is listed.
pub open spec fn has_file(files: Listing, name: Seq<char>) -> bool {
    exists|i: int| 0 <= i < files.len() && #[trigger] files[i].0 == name
}

/// The place of the first file of that name; the length of the listing if
/// there is none.
pub open spec fn position_of(files: Listing, name: Seq<char>) -> int
    decreases files.len(),
{
    if files.len() == 0 {
        0
    } else if files[0].0 == name {
        0
    } else {
        1 + position_of(files.drop_first(), name)
    }
}

/// The text of the file of that name.
pub open spec fn content_of(files: Listing, name: Seq<char>) -> Seq<char>
    recommends
        has_file(files, name),
{
    files[position_of(files, name)].1
}

/// The files that do not have that name.
pub open spec fn not_named(name: Seq<char>) -> spec_fn((Seq<char>, Seq<char>)) -> bool {
    |file: (Seq<char>, Seq<char>)| file.0 != name
}

/// The listing without the file of that name.
pub open spec fn without_file(files: Listing, name: Seq<char>) -> Listing {
    files.filter(not_named(name))
}

/// The listing after a file of that name was deleted, if there was one, and
/// created anew with the given text: the new file comes last.
pub open spec fn with_file(files: Listing, name: Seq<char>, content: Seq<char>) -> Listing {
    without_file(files, name).push((name, content))
}

/// The listing after the file of that name was given a new text in place.
pub open spec fn rewritten(files: Listing, name: Seq<char>, content: Seq<char>) -> Listing
    recommends
        has_file(files, name),
{
    files.update(position_of(files, name), (name, content))
}

pub proof fn lemma_position_of(files: Listing, name: Seq<char>)
    ensures
        0 <= position_of(files, name) <= files.len(),
        has_file(files, name) <==> position_of(files, name) < files.len(),
        position_of(files, name) < files.len() ==> files[position_of(files, name)].0 == name,
        forall|i: int| 0 <= i < position_of(files, name) ==> (#[trigger] files[i]).0 != name,
    decreases files.len(),
{
    if files.len() == 0 {
    } else if files[0].0 == name {
    } else {
        let rest = files.drop_first();
        lemma_position_of(rest, name);
        let p = position_of(rest, name);
        assert forall|i: int| 0 <= i < 1 + p implies (#[trigger] files[i]).0 != name by {
            if i > 0 {
                assert(files[i] == rest[i - 1]);
            }
        }
        if p < rest.len() {
            assert(files[1 + p] == rest[p]);
        }
        if has_file(files, name) {
            let i = choose|i: int| 0 <= i < files.len() && #[trigger] files[i].0 == name;
            assert(i > 0);
            assert(rest[i - 1] == files[i]);
            assert(rest[i - 1].0 == name);
        }
    }
}

/// A filter that every item passes keeps the sequence as it is.
pub proof fn lemma_filter_all<A>(items: Seq<A>, wanted: spec_fn(A) -> bool)
    requires
        forall|i: int| 0 <= i < items.len() ==> wanted(#[trigger] items[i]),
    ensures
        items.filter(wanted) == items,
    decreases items.len(),
{
    reveal_with_fuel(Seq::filter, 1);
    if items.len() > 0 {
        let rest = items.drop_last();
        assert forall|i: int| 0 <= i < rest.len() implies wanted(#[trigger] rest[i]) by {
            assert(rest[i] == items[i]);
        }
        lemma_filter_all(rest, wanted);
        assert(wanted(items[items.len() - 1]));
        assert(rest.push(items.last()) =~= items);
    }
}

/// Two filters, one after the other, keep what passes both.
pub proof fn lemma_filter_twice<A>(
    items: Seq<A>,
    first: spec_fn(A) -> bool,
    second: spec_fn(A) -> bool,
    both: spec_fn(A) -> bool,
)
    requires
        forall|item: A| #[trigger] both(item) == (first(item) && second(item)),
    ensures
        items.filter(first).filter(second) == items.filter(both),
    decreases items.len(),
{
    reveal_with_fuel(Seq::filter, 1);
    if items.len() > 0 {
        let rest = items.drop_last();
        lemma_filter_twice(rest, first, second, both);
        if first(items.last()) {
            let kept = rest.filter(first);
            assert(kept.push(items.last()).drop_last() =~= kept);
        }
    }
}

/// Deleting a file keeps the names of the others apart, and leaves no file
/// of that name.
pub proof fn lemma_without_file(files: Listing, name: Seq<char>)
    ensures
        !has_file(without_file(files, name), name),
        distinct_names(files) ==> distinct_names(without_file(files, name)),
        forall|other: Seq<char>|
            other != name ==> (has_file(without_file(files, name), other) <==> has_file(
                files,
                other,
            )),
    decreases files.len(),
{
    reveal_with_fuel(Seq::filter, 1);
    let kept = without_file(files, name);
    if files.len() > 0 {
        let rest = files.drop_last();
        let before = without_file(rest, name);
        lemma_without_file(rest, name);
        assert forall|i: int| 0 <= i < before.len() implies exists|j: int|
            0 <= j < rest.len() && rest[j] == #[trigger] before[i] by {
            assert(before.contains(before[i]));
            rest.lemma_filter_contains_rev(not_named(name), before[i]);
        }
        if has_file(kept, name) {
            let i = choose|i: int| 0 <= i < kept.len() && #[trigger] kept[i].0 == name;
            if i < before.len() {
                assert(before[i].0 == name);
            }
        }
        if distinct_names(files) {
            assert forall|i: int, j: int| 0 <= i < j < rest.len() implies rest[i].0
                != rest[j].0 by {
                assert(rest[i] == files[i] && rest[j] == files[j]);
            }
            assert forall|i: int, j: int| 0 <= i < j < kept.len() implies kept[i].0
                != kept[j].0 by {
                if j == before.len() {
                    let at = choose|at: int| 0 <= at < rest.len() && rest[at] == before[i];
                    assert(files[at].0 != files[files.len() - 1].0);
                }
            }
        }
        assert forall|other: Seq<char>| other != name implies (has_file(kept, other) <==> has_file(
            files,
            other,
        )) by {
            if has_file(kept, other) {
                let i = choose|i: int| 0 <= i < kept.len() && #[trigger] kept[i].0 == other;
                if i < before.len() {
                    assert(before[i].0 == other);
                    assert(has_file(before, other));
                    assert(has_file(rest, other));
                    let at = choose|at: int| 0 <= at < rest.len() && #[trigger] rest[at].0 == other;
                    assert(files[at].0 == other);
                } else {
                    assert(files[files.len() - 1].0 == other);
                }
            }
            if has_file(files, other) {
                let at = choose|at: int| 0 <= at < files.len() && #[trigger] files[at].0 == other;
                if at < rest.len() {
                    assert(rest[at].0 == other);
                    assert(has_file(rest, other));
                    assert(has_file(before, other));
                    let i = choose|i: int| 0 <= i < before.len() && #[trigger] before[i].0 == other;
                    assert(kept[i].0 == other);
                } else {
                    assert(kept[kept.len() - 1].0 == other);
                }
            }
        }
    }
}

/// Making a file anew keeps the names of the files apart; the file is
/// there afterwards, with the text given, and the other files are still
/// there.
pub proof fn lemma_with_file(files: Listing, name: Seq<char>, content: Seq<char>)
    ensures
        has_file(with_file(files, name, content), name),
        distinct_names(files) ==> distinct_names(with_file(files, name, content)),
        distinct_names(files) ==> content_of(with_file(files, name, content), name) == content,
        forall|other: Seq<char>|
            other != name ==> (has_file(with_file(files, name, content), other) <==> has_file(
                files,
                other,
            )),
{
    let kept = without_file(files, name);
    let made = with_file(files, name, content);
    lemma_without_file(files, name);
    assert(made[made.len() - 1].0 == name);
    assert forall|other: Seq<char>| other != name implies (has_file(made, other) <==> has_file(
        files,
        other,
    )) by {
        if has_file(made, other) {
            let i = choose|i: int| 0 <= i < made.len() && #[trigger] made[i].0 == other;
            assert(kept[i].0 == other);
        }
        if has_file(files, other) {
            let i = choose|i: int| 0 <= i < kept.len() && #[trigger] kept[i].0 == other;
            assert(made[i].0 == other);
        }
    }
    if distinct_names(files) {
        assert forall|i: int, j: int| 0 <= i < j < made.len() implies made[i].0 != made[j].0 by {
            if j == kept.len() {
                assert(kept[i].0 != name);
            }
        }
        lemma_position_of(made, name);
        let at = position_of(made, name);
        if at < kept.len() {
            assert(kept[at].0 == name);
        }
    }
}

/// Writing a file again changes neither the names of the files nor their
/// order.
pub proof fn lemma_rewritten(files: Listing, name: Seq<char>, content: Seq<char>)
    requires
        has_file(files, name),
    ensures
        names_of(rewritten(files, name, content)) == names_of(files),
        distinct_names(files) ==> distinct_names(rewritten(files, name, content)),
        content_of(rewritten(files, name, content), name) == content,
{
    lemma_position_of(files, name);
    let written = rewritten(files, name, content);
    assert(names_of(written) =~= names_of(files));
    lemma_position_of(written, name);
    let at = position_of(files, name);
    let now = position_of(written, name);
    assert(written[at].0 == name);
    if now < at {
        assert(files[now].0 == written[now].0);
    }
    if at < now {
        assert(written[at].0 == name);
    }
}

/// One file of a repository.
#[derive(Debug, Clone, PartialEq)]
pub struct RepoFile {
    pub name: String,
    pub content: String,
}

impl View for RepoFile {
    type V = (Seq<char>, Seq<char>);

    open spec fn view(&self) -> (Seq<char>, Seq<char>) {
        (self.name@, self.content@)
    }
}

/// The files of one dictionary directory, in the order in which the
/// directory lists them. Where two files carry the same name, which no
/// directory allows, the first one is the file of that name.
#[derive(Debug, Clone, PartialEq)]
pub struct Repository {
    /// The directory that the repository stands for.
    pub path: String,
    pub files: Vec<RepoFile>,
}

impl View for Repository {
    type V = Listing;

    open spec fn view(&self) -> Listing {
        Seq::new(self.files@.len(), |i: int| self.files@[i]@)
    }
}

impl Repository {
    /// An empty repository for the directory `path`.
    pub fn new(path: String) -> (repo: Repository)
        ensures
            repo.files@.len() == 0,
            repo@ == Seq::<(Seq<char>, Seq<char>)>::empty(),
            repo.path == path,
    {
        let repo = Repository { path, files: Vec::new() };
        assert(repo@ =~= Seq::<(Seq<char>, Seq<char>)>::empty());
        repo
    }

    /// The place of the file of that name, if there is one.
    pub fn position(&self, name: &str) -> (place: Option<usize>)
        ensures
            match place {
                Some(i) => has_file(self@, name@) && i == position_of(self@, name@) && i
                    < self.files@.len(),
                None => !has_file(self@, name@),
            },
    {
        let mut i: usize = 0;
        while i < self.files.len()
            invariant
                i <= self.files.len(),
                forall|j: int| 0 <= j < i ==> (#[trigger] self@[j]).0 != name@,
            decreases self.files.len() - i,
        {
            if *self.files[i].name.as_str() == *name {
                let ghost first = position_of(self@, name@);
                proof {
                    lemma_position_of(self@, name@);
                }
                assert(self@[i as int].0 == name@);
                assert(first <= i) by {
                    if i < first {
                        assert(self@[i as int].0 != name@);
                    }
                }
                assert(first >= i) by {
                    if first < i {
                        assert(self@[first].0 != name@);
                    }
                }
                return Some(i);
            }
            i += 1;
        }
        None
    }

    /// The text of the file of that name, if there is one.
    pub fn read(&self, name: &str) -> (content: Option<&String>)
        ensures
            match content {
                Some(text) => has_file(self@, name@) && text@ == content_of(self@, name@),
                None => !has_file(self@, name@),
            },
    {
        match self.position(name) {
            Some(i) => Some(&self.files[i].content),
            None => None,
        }
    }

    /// Deletes every file of that name.
    pub fn remove(&mut self, name: &str)
        ensures
            final(self)@ == without_file(old(self)@, name@),
            final(self).path@ == old(self).path@,
            distinct_names(old(self)@) ==> distinct_names(final(self)@),
    {
        proof {
            lemma_without_file(self@, name@);
        }
        let mut kept: Vec<RepoFile> = Vec::new();
        let mut files: Vec<RepoFile> = Vec::new();
        std::mem::swap(&mut files, &mut self.files);
        let ghost before = files@;
        let ghost listing = Seq::new(before.len(), |i: int| before[i]@);
        proof {
            assert(listing.take(0) =~= Seq::<(Seq<char>, Seq<char>)>::empty());
        }
        for file in it: files
            invariant
                it.seq() == before,
                listing == Seq::new(before.len(), |i: int| before[i]@),
                Seq::new(kept@.len(), |i: int| kept@[i]@) == without_file(
                    listing.take(it.index() as int),
                    name@,
                ),
        {
            proof {
                let k = it.index() as int;
                assert(listing.take(k + 1).drop_last() =~= listing.take(k));
                assert(listing.take(k + 1).last() == file@);
                reveal_with_fuel(Seq::filter, 2);
            }
            if *file.name.as_str() != *name {
                let ghost prior = Seq::new(kept@.len(), |i: int| kept@[i]@);
                kept.push(file);
                assert(Seq::new(kept@.len(), |i: int| kept@[i]@) =~= prior.push(file@));
            }
        }
        proof {
            assert(listing.take(listing.len() as int) =~= listing);
        }
        self.files = kept;
    }

    /// Deletes the file of that name, if there is one, and creates it anew
    /// with the given text.
    pub fn replace(&mut self, name: String, content: String)
        ensures
            final(self)@ == with_file(old(self)@, name@, content@),
            final(self).path@ == old(self).path@,
            distinct_names(old(self)@) ==> distinct_names(final(self)@),
    {
        proof {
            lemma_with_file(self@, name@, content@);
        }
        self.remove(name.as_str());
        let ghost prior = self@;
        self.files.push(RepoFile { name, content });
        assert(self@ =~= prior.push((name@, content@)));
    }

    /// Gives the file of that name a new text, in place; says whether there
    /// was such a file.
    pub fn rewrite(&mut self, name: &str, content: String) -> (found: bool)
        ensures
            found == has_file(old(self)@, name@),
            found ==> final(self)@ == rewritten(old(self)@, name@, content@),
            !found ==> final(self)@ == old(self)@,
            final(self).path@ == old(self).path@,
            distinct_names(old(self)@) ==> distinct_names(final(self)@),
    {
        proof {
            if has_file(self@, name@) {
                lemma_rewritten(self@, name@, content@);
            }
        }
        match self.position(name) {
            Some(i) => {
                let ghost prior = self@;
                self.files[i].content = content;
                proof {
                    lemma_position_of(prior, name@);
                    assert(self@ =~= prior.update(i as int, (name@, content@)));
                }
                true
            },
            None => false,
        }
    }
}

} // verus!
