//! Which session files an import reads, and in what order.
//!
//! Of all the files that a scan finds, an import keeps the newest, up to a
//! limit, and reads the newest first.

use vstd::prelude::*;
use vstd::multiset::Multiset;
use vstd::relations::*;
use vstd::seq_lib::*;

verus! {

/// A session file that a scan found.
#[derive(Debug)]
pub struct Candidate {
    /// When the file was modified, in nanoseconds since the epoch.
    pub modified: i128,
    /// The names on the path to the file, from a directory down that holds all
    /// that is scanned.
    pub path: Vec<Vec<u8>>,
}

/// What a candidate is.
#[verifier::ext_equal]
pub struct CandidateModel {
    pub modified: int,
    pub path: Seq<Seq<u8>>,
}

/// The names on a path.
pub open spec fn path_model(path: Seq<Vec<u8>>) -> Seq<Seq<u8>> {
    path.map_values(|name: Vec<u8>| name@)
}

impl View for Candidate {
    type V = CandidateModel;

    open spec fn view(&self) -> CandidateModel {
        CandidateModel { modified: self.modified as int, path: path_model(self.path@) }
    }
}

/// What candidates are.
pub open spec fn models(files: Seq<Candidate>) -> Seq<CandidateModel> {
    files.map_values(|file: Candidate| file@)
}

// ---------------------------------------------------------------------------
// Orders
// ---------------------------------------------------------------------------

/// Whether the name `a` sorts before `b`: byte by byte.
pub open spec fn name_before(a: Seq<u8>, b: Seq<u8>) -> bool
    decreases a.len(),
{
    if b.len() == 0 {
        false
    } else if a.len() == 0 {
        true
    } else if a[0] == b[0] {
        name_before(a.drop_first(), b.drop_first())
    } else {
        a[0] < b[0]
    }
}

/// Whether the path `a` sorts before `b`: name by name.
pub open spec fn path_before(a: Seq<Seq<u8>>, b: Seq<Seq<u8>>) -> bool
    decreases a.len(),
{
    if b.len() == 0 {
        false
    } else if a.len() == 0 {
        true
    } else if a[0] == b[0] {
        path_before(a.drop_first(), b.drop_first())
    } else {
        name_before(a[0], b[0])
    }
}

/// Whether `a` gives way to `b`: it is older, or as old and its path sorts
/// first.
pub open spec fn older(a: CandidateModel, b: CandidateModel) -> bool {
    a.modified < b.modified || (a.modified == b.modified && path_before(a.path, b.path))
}

/// Whether `a` is read before `b`: it is newer, or as new and its path sorts
/// first.
pub open spec fn read_before(a: CandidateModel, b: CandidateModel) -> bool {
    a.modified > b.modified || (a.modified == b.modified && path_before(a.path, b.path))
}

/// Names are totally ordered.
pub proof fn names_are_ordered(a: Seq<u8>, b: Seq<u8>, c: Seq<u8>)
    ensures
        !name_before(a, a),
        name_before(a, b) && name_before(b, c) ==> name_before(a, c),
        a == b || name_before(a, b) || name_before(b, a),
    decreases a.len() + b.len() + c.len(),
{
    if a.len() > 0 && b.len() > 0 {
        names_are_ordered(a.drop_first(), b.drop_first(), if c.len() > 0 {
            c.drop_first()
        } else {
            c
        });
        if a[0] == b[0] && a.drop_first() == b.drop_first() {
            assert(a =~= seq![a[0]] + a.drop_first());
            assert(b =~= seq![b[0]] + b.drop_first());
        }
    } else if a.len() > 0 {
        names_are_ordered(a.drop_first(), b, c);
    } else if b.len() == 0 {
        assert(a =~= b);
    }
}

/// Paths are totally ordered.
pub proof fn paths_are_ordered(a: Seq<Seq<u8>>, b: Seq<Seq<u8>>, c: Seq<Seq<u8>>)
    ensures
        !path_before(a, a),
        path_before(a, b) && path_before(b, c) ==> path_before(a, c),
        a == b || path_before(a, b) || path_before(b, a),
    decreases a.len() + b.len() + c.len(),
{
    if a.len() > 0 && b.len() > 0 {
        names_are_ordered(a[0], b[0], if c.len() > 0 {
            c[0]
        } else {
            a[0]
        });
        names_are_ordered(a[0], b[0], a[0]);
        paths_are_ordered(a.drop_first(), b.drop_first(), if c.len() > 0 {
            c.drop_first()
        } else {
            c
        });
        if a[0] == b[0] && a.drop_first() == b.drop_first() {
            assert(a =~= seq![a[0]] + a.drop_first());
            assert(b =~= seq![b[0]] + b.drop_first());
        }
    } else if a.len() > 0 {
        paths_are_ordered(a.drop_first(), b, c);
    } else if b.len() == 0 {
        assert(a =~= b);
    }
}

/// Candidates are totally ordered by age, and by when they are read.
pub proof fn candidates_are_ordered(a: CandidateModel, b: CandidateModel, c: CandidateModel)
    ensures
        !older(a, a),
        older(a, b) && older(b, c) ==> older(a, c),
        a == b || older(a, b) || older(b, a),
        !read_before(a, a),
        read_before(a, b) && read_before(b, c) ==> read_before(a, c),
        a == b || read_before(a, b) || read_before(b, a),
{
    paths_are_ordered(a.path, b.path, c.path);
}

/// Whether the name `a` sorts before `b`.
fn is_name_before(a: &Vec<u8>, b: &Vec<u8>) -> (r: bool)
    ensures
        r == name_before(a@, b@),
{
    let mut i: usize = 0;
    assert(a@.skip(0) =~= a@);
    assert(b@.skip(0) =~= b@);
    while i < a.len() && i < b.len()
        invariant
            i <= a@.len(),
            i <= b@.len(),
            name_before(a@, b@) == name_before(a@.skip(i as int), b@.skip(i as int)),
        decreases a@.len() - i,
    {
        assert(a@.skip(i as int).drop_first() =~= a@.skip(i + 1));
        assert(b@.skip(i as int).drop_first() =~= b@.skip(i + 1));
        if a[i] != b[i] {
            return a[i] < b[i];
        }
        i += 1;
    }
    i < b.len()
}

/// Whether the path `a` sorts before `b`.
fn is_path_before(a: &Vec<Vec<u8>>, b: &Vec<Vec<u8>>) -> (r: bool)
    ensures
        r == path_before(path_model(a@), path_model(b@)),
{
    let ghost x = path_model(a@);
    let ghost y = path_model(b@);
    let mut i: usize = 0;
    assert(x.skip(0) =~= x);
    assert(y.skip(0) =~= y);
    while i < a.len() && i < b.len()
        invariant
            i <= a@.len(),
            i <= b@.len(),
            x == path_model(a@),
            y == path_model(b@),
            path_before(x, y) == path_before(x.skip(i as int), y.skip(i as int)),
        decreases a@.len() - i,
    {
        proof {
            assert(x.skip(i as int).drop_first() =~= x.skip(i + 1));
            assert(y.skip(i as int).drop_first() =~= y.skip(i + 1));
            names_are_ordered(x[i as int], y[i as int], x[i as int]);
        }
        if is_name_before(&a[i], &b[i]) {
            return true;
        }
        if is_name_before(&b[i], &a[i]) {
            return false;
        }
        i += 1;
    }
    i < b.len()
}

impl Candidate {
    /// Whether this candidate gives way to `other`.
    pub fn is_older(&self, other: &Candidate) -> (r: bool)
        ensures
            r == older(self@, other@),
    {
        self.modified < other.modified || (self.modified == other.modified && is_path_before(
            &self.path,
            &other.path,
        ))
    }

    /// Whether this candidate is read before `other`.
    pub fn is_read_before(&self, other: &Candidate) -> (r: bool)
        ensures
            r == read_before(self@, other@),
    {
        self.modified > other.modified || (self.modified == other.modified && is_path_before(
            &self.path,
            &other.path,
        ))
    }
}

// ---------------------------------------------------------------------------
// The newest files
// ---------------------------------------------------------------------------

/// Whether `file` is in `kept` and no other file there is older.
pub open spec fn oldest_in(kept: Multiset<CandidateModel>, file: CandidateModel) -> bool {
    kept.contains(file) && forall|other: CandidateModel| #[trigger]
        kept.contains(other) ==> !older(other, file)
}

/// The oldest file in `kept`.
pub open spec fn oldest(kept: Multiset<CandidateModel>) -> CandidateModel {
    choose|file: CandidateModel| oldest_in(kept, file)
}

/// Whether `file` finds `kept` full and pushes the oldest file out of it.
pub open spec fn pushes_out(
    limit: nat,
    kept: Multiset<CandidateModel>,
    file: CandidateModel,
) -> bool {
    kept.len() >= limit && kept.len() > 0 && older(oldest(kept), file)
}

/// What is kept, of at most `limit` files, after `file` has been offered.
pub open spec fn after_offer(
    limit: nat,
    kept: Multiset<CandidateModel>,
    file: CandidateModel,
) -> Multiset<CandidateModel> {
    if kept.len() < limit {
        kept.insert(file)
    } else if pushes_out(limit, kept, file) {
        kept.remove(oldest(kept)).insert(file)
    } else {
        kept
    }
}

/// What is kept, of at most `limit` files, after all of `offers`.
pub open spec fn after_offers(limit: nat, offers: Seq<CandidateModel>) -> Multiset<CandidateModel>
    decreases offers.len(),
{
    if offers.len() == 0 {
        Multiset::empty()
    } else {
        after_offer(limit, after_offers(limit, offers.drop_last()), offers.last())
    }
}

/// Whether no file stands behind one that is younger.
pub open spec fn by_age(files: Seq<CandidateModel>) -> bool {
    forall|i: int, j: int| 0 <= i < j < files.len() ==> !older(#[trigger] files[j], #[trigger] files[i])
}

/// Whether no file stands behind one that is to be read after it.
pub open spec fn by_reading(files: Seq<CandidateModel>) -> bool {
    forall|i: int, j: int|
        0 <= i < j < files.len() ==> !read_before(#[trigger] files[j], #[trigger] files[i])
}

/// The first of files in the order of their age is the oldest.
proof fn lemma_first_is_oldest(files: Seq<CandidateModel>)
    requires
        by_age(files),
        files.len() > 0,
    ensures
        oldest_in(files.to_multiset(), files[0]),
        oldest(files.to_multiset()) == files[0],
{
    broadcast use group_to_multiset_ensures;

    let kept = files.to_multiset();
    assert(files.contains(files[0]));
    assert(kept.count(files[0]) > 0);
    assert forall|other: CandidateModel| #[trigger] kept.contains(other) implies !older(
        other,
        files[0],
    ) by {
        assert(files.contains(other));
        candidates_are_ordered(files[0], other, other);
    }
    assert(oldest_in(kept, files[0]));
    let chosen = oldest(kept);
    assert(oldest_in(kept, chosen));
    candidates_are_ordered(chosen, files[0], chosen);
}

/// The newest of the files that were offered, up to a limit.
#[derive(Debug)]
pub struct NewestFiles {
    limit: usize,
    files: Vec<Candidate>,
}

/// What became of a file that was offered.
#[derive(Debug)]
pub enum Offer {
    /// It is kept.
    Kept,
    /// It is kept in place of the oldest file.
    Replaced(Candidate),
    /// It is not kept.
    Dropped,
}

impl NewestFiles {
    /// How many files are kept at most.
    pub closed spec fn limit(self) -> nat {
        self.limit as nat
    }

    /// The files that are kept.
    pub closed spec fn kept(self) -> Multiset<CandidateModel> {
        models(self.files@).to_multiset()
    }

    /// The files stand in the order of their age, and there are no more than
    /// the limit.
    pub closed spec fn well_formed(self) -> bool {
        by_age(models(self.files@)) && self.files@.len() <= self.limit
    }

    /// Keeps at most `limit` files, and none yet.
    pub fn new(limit: usize) -> (r: Self)
        ensures
            r.well_formed(),
            r.limit() == limit,
            r.kept() == Multiset::<CandidateModel>::empty(),
    {
        broadcast use group_to_multiset_ensures;

        let r = NewestFiles { limit, files: Vec::new() };
        assert(models(r.files@).to_multiset() =~= Multiset::<CandidateModel>::empty());
        r
    }

    /// How many files are kept.
    pub fn len(&self) -> (r: usize)
        ensures
            r == self.kept().len(),
    {
        broadcast use group_to_multiset_ensures;

        self.files.len()
    }

    /// Puts `file` where its age belongs.
    fn place(&mut self, file: Candidate)
        requires
            by_age(models(old(self).files@)),
        ensures
            by_age(models(final(self).files@)),
            final(self).limit == old(self).limit,
            final(self).files@.len() == old(self).files@.len() + 1,
            final(self).kept() == old(self).kept().insert(file@),
    {
        broadcast use group_to_multiset_ensures;

        let ghost before = models(self.files@);
        let mut at: usize = self.files.len();
        while at > 0 && file.is_older(&self.files[at - 1])
            invariant
                at <= self.files@.len(),
                before == models(self.files@),
                self.files@ == old(self).files@,
                self.limit == old(self).limit,
                forall|j: int| at <= j < before.len() ==> older(file@, #[trigger] before[j]),
            decreases at,
        {
            at -= 1;
        }
        proof {
            if at > 0 {
                assert(!older(file@, before[at - 1]));
            }
        }
        let ghost placed = file@;
        self.files.insert(at, file);
        proof {
            let after = models(self.files@);
            assert(after =~= before.insert(at as int, placed));
            assert forall|i: int, j: int| 0 <= i < j < after.len() implies !older(
                #[trigger] after[j],
                #[trigger] after[i],
            ) by {
                if i == at {
                    assert(after[j] == before[j - 1]);
                    candidates_are_ordered(placed, before[j - 1], placed);
                } else if j == at {
                    if i < at - 1 {
                        assert(!older(before[at - 1], before[i]));
                        candidates_are_ordered(before[i], before[at - 1], placed);
                        candidates_are_ordered(placed, before[i], before[at - 1]);
                    }
                }
            }
        }
    }

    /// Offers `file`.
    pub fn offer(&mut self, file: Candidate) -> (r: Offer)
        requires
            old(self).well_formed(),
        ensures
            final(self).well_formed(),
            final(self).limit() == old(self).limit(),
            final(self).kept() == after_offer(old(self).limit(), old(self).kept(), file@),
            match r {
                Offer::Kept => old(self).kept().len() < old(self).limit(),
                Offer::Replaced(out) => pushes_out(old(self).limit(), old(self).kept(), file@)
                    && out@ == oldest(old(self).kept()),
                Offer::Dropped => old(self).kept().len() >= old(self).limit() && !pushes_out(
                    old(self).limit(),
                    old(self).kept(),
                    file@,
                ),
            },
    {
        broadcast use group_to_multiset_ensures;

        if self.files.len() < self.limit {
            self.place(file);
            return Offer::Kept;
        }
        if self.files.len() == 0 {
            return Offer::Dropped;
        }
        let ghost before = models(self.files@);
        proof {
            lemma_first_is_oldest(before);
        }
        if !self.files[0].is_older(&file) {
            return Offer::Dropped;
        }
        let out = self.files.remove(0);
        proof {
            let rest = models(self.files@);
            assert(rest =~= before.remove(0));
            assert forall|i: int, j: int| 0 <= i < j < rest.len() implies !older(
                #[trigger] rest[j],
                #[trigger] rest[i],
            ) by {
                assert(!older(before[j + 1], before[i + 1]));
            }
        }
        self.place(file);
        Offer::Replaced(out)
    }

    /// The files that are kept, in the order in which they are read.
    pub fn into_reading_order(self) -> (r: Vec<Candidate>)
        ensures
            models(r@).to_multiset() == self.kept(),
            by_reading(models(r@)),
    {
        broadcast use group_to_multiset_ensures;

        let mut files = self.files;
        let ghost all = models(files@);
        let mut out: Vec<Candidate> = Vec::new();
        assert(models(out@).to_multiset() =~= Multiset::<CandidateModel>::empty());
        assert(models(files@).to_multiset().add(models(out@).to_multiset()) =~= all.to_multiset());
        loop
            invariant
                models(files@).to_multiset().add(models(out@).to_multiset()) == all.to_multiset(),
                by_reading(models(out@)),
            ensures
                files@.len() == 0,
            decreases files@.len(),
        {
            let ghost left = models(files@);
            let ghost done = models(out@);
            let Some(file) = files.pop() else {
                break;
            };
            let ghost placed = file@;
            place_in_reading_order(&mut out, file);
            proof {
                assert(models(files@) =~= left.drop_last());
                assert(left =~= left.drop_last().push(placed));
                assert(left.to_multiset() == left.drop_last().to_multiset().insert(placed)) by {
                    to_multiset_build(left.drop_last(), placed);
                }
                assert(models(files@).to_multiset().add(models(out@).to_multiset())
                    =~= left.to_multiset().add(done.to_multiset()));
            }
        }
        proof {
            assert(models(files@) =~= Seq::empty());
            assert(models(files@).to_multiset() =~= Multiset::<CandidateModel>::empty());
            assert(models(out@).to_multiset() =~= all.to_multiset());
        }
        out
    }
}

/// Puts `file` where it belongs in the reading order.
fn place_in_reading_order(files: &mut Vec<Candidate>, file: Candidate)
    requires
        by_reading(models(old(files)@)),
    ensures
        by_reading(models(final(files)@)),
        models(final(files)@).to_multiset() == models(old(files)@).to_multiset().insert(file@),
{
    broadcast use group_to_multiset_ensures;

    let ghost before = models(files@);
    let mut at: usize = files.len();
    while at > 0 && file.is_read_before(&files[at - 1])
        invariant
            at <= files@.len(),
            before == models(files@),
            files@ == old(files)@,
            forall|j: int| at <= j < before.len() ==> read_before(file@, #[trigger] before[j]),
        decreases at,
    {
        at -= 1;
    }
    proof {
        if at > 0 {
            assert(!read_before(file@, before[at - 1]));
        }
    }
    let ghost placed = file@;
    files.insert(at, file);
    proof {
        let after = models(files@);
        assert(after =~= before.insert(at as int, placed));
        assert forall|i: int, j: int| 0 <= i < j < after.len() implies !read_before(
            #[trigger] after[j],
            #[trigger] after[i],
        ) by {
            if i == at {
                assert(after[j] == before[j - 1]);
                candidates_are_ordered(placed, before[j - 1], placed);
            } else if j == at {
                if i < at - 1 {
                    assert(!read_before(before[at - 1], before[i]));
                    candidates_are_ordered(before[i], before[at - 1], placed);
                    candidates_are_ordered(placed, before[i], before[at - 1]);
                }
            }
        }
    }
}

// ---------------------------------------------------------------------------
// Laws
// ---------------------------------------------------------------------------

/// Among any files one is the oldest.
proof fn lemma_oldest_exists(kept: Multiset<CandidateModel>)
    requires
        kept.len() > 0,
    ensures
        oldest_in(kept, oldest(kept)),
    decreases kept.len(),
{
    let file = kept.choose();
    let rest = kept.remove(file);
    assert(kept.contains(file));
    assert forall|other: CandidateModel| #[trigger] kept.contains(other) && other != file implies rest.contains(
        other,
    ) by {}
    if rest.len() == 0 {
        assert forall|other: CandidateModel| #[trigger] kept.contains(other) implies !older(
            other,
            file,
        ) by {
            if other != file {
                assert(rest.contains(other));
                assert(rest.count(other) == 0);
            }
            candidates_are_ordered(file, file, file);
        }
        assert(oldest_in(kept, file));
    } else {
        lemma_oldest_exists(rest);
        let other_oldest = oldest(rest);
        let first = if older(file, other_oldest) {
            file
        } else {
            other_oldest
        };
        assert(kept.contains(other_oldest));
        assert forall|other: CandidateModel| #[trigger] kept.contains(other) implies !older(
            other,
            first,
        ) by {
            candidates_are_ordered(file, file, file);
            if other != file {
                assert(rest.contains(other));
                candidates_are_ordered(other, file, other_oldest);
            }
        }
        assert(oldest_in(kept, first));
    }
}

/// Whatever is offered, and in whatever order: as many files are kept as the
/// limit allows, all of them were offered, and no file that was offered and is
/// not kept is newer than one that is.
pub proof fn the_newest_are_kept(limit: nat, offers: Seq<CandidateModel>)
    ensures
        after_offers(limit, offers).len() == (if offers.len() <= limit {
            offers.len()
        } else {
            limit
        }),
        after_offers(limit, offers).subset_of(offers.to_multiset()),
        forall|lost: CandidateModel, file: CandidateModel|
            #![trigger offers.to_multiset().sub(after_offers(limit, offers)).contains(lost), after_offers(limit, offers).contains(file)]
            offers.to_multiset().sub(after_offers(limit, offers)).contains(lost) && after_offers(
                limit,
                offers,
            ).contains(file) ==> !older(file, lost),
    decreases offers.len(),
{
    broadcast use group_to_multiset_ensures;

    if offers.len() == 0 {
        assert(offers.to_multiset() =~= Multiset::<CandidateModel>::empty());
    } else {
        let earlier = offers.drop_last();
        let file = offers.last();
        the_newest_are_kept(limit, earlier);
        let kept = after_offers(limit, earlier);
        let next = after_offers(limit, offers);
        let all = earlier.to_multiset();
        assert(offers =~= earlier.push(file));
        assert(offers.to_multiset() == all.insert(file));
        let lost_before = all.sub(kept);
        let lost_after = all.insert(file).sub(next);
        if kept.len() < limit {
            assert(lost_before.len() == 0);
            assert(lost_after =~= lost_before);
            assert forall|lost: CandidateModel| !lost_after.contains(lost) by {
                assert(lost_before.count(lost) == 0);
            }
        } else if pushes_out(limit, kept, file) {
            let out = oldest(kept);
            lemma_oldest_exists(kept);
            assert(kept.contains(out));
            assert(lost_after =~= lost_before.insert(out));
            assert forall|lost: CandidateModel, k: CandidateModel|
                #[trigger] lost_after.contains(lost) && #[trigger] next.contains(k) implies !older(
                k,
                lost,
            ) by {
                candidates_are_ordered(out, k, out);
                candidates_are_ordered(out, file, lost);
                if lost != out {
                    assert(lost_before.contains(lost));
                    assert(!older(out, lost));
                }
                if k != file {
                    assert(kept.contains(k));
                }
            }
        } else {
            assert(lost_after =~= lost_before.insert(file));
            assert forall|lost: CandidateModel, k: CandidateModel|
                #[trigger] lost_after.contains(lost) && #[trigger] next.contains(k) implies !older(
                k,
                lost,
            ) by {
                assert(kept.contains(k));
                if lost == file && !lost_before.contains(lost) {
                    assert(kept.len() > 0) by {
                        if kept.len() == 0 {
                            assert(kept.count(k) == 0);
                        }
                    }
                    lemma_oldest_exists(kept);
                    candidates_are_ordered(oldest(kept), k, file);
                    candidates_are_ordered(k, oldest(kept), file);
                } else {
                    assert(lost_before.contains(lost));
                }
            }
        }
    }
}

/// In the reading order no file stands behind an older one.
pub proof fn newer_files_are_read_first(files: Seq<CandidateModel>, i: int, j: int)
    requires
        by_reading(files),
        0 <= i < j < files.len(),
    ensures
        files[i].modified >= files[j].modified,
{
    assert(!read_before(files[j], files[i]));
}

/// Two collections of one size are the same where the first lies in the second.
proof fn lemma_same_size(a: Multiset<CandidateModel>, b: Multiset<CandidateModel>)
    requires
        a.subset_of(b),
        a.len() == b.len(),
    ensures
        a == b,
{
    let rest = b.sub(a);
    assert(rest.len() == 0);
    assert forall|file: CandidateModel| a.count(file) == b.count(file) by {
        assert(rest.count(file) == 0);
    }
    assert(a =~= b);
}

/// Which files are kept does not depend on the order in which they are offered.
pub proof fn the_order_of_offers_does_not_matter(
    limit: nat,
    offers: Seq<CandidateModel>,
    others: Seq<CandidateModel>,
)
    requires
        offers.to_multiset() == others.to_multiset(),
    ensures
        after_offers(limit, offers) == after_offers(limit, others),
{
    broadcast use group_to_multiset_ensures;

    the_newest_are_kept(limit, offers);
    the_newest_are_kept(limit, others);
    let all = offers.to_multiset();
    let (a, b) = (after_offers(limit, offers), after_offers(limit, others));
    assert(offers.len() == all.len() && others.len() == all.len());
    assert(a.len() == b.len());
    if a != b {
        assert(exists|x: CandidateModel| a.count(x) > b.count(x)) by {
            if forall|x: CandidateModel| a.count(x) <= b.count(x) {
                lemma_same_size(a, b);
            }
        }
        assert(exists|y: CandidateModel| b.count(y) > a.count(y)) by {
            if forall|y: CandidateModel| b.count(y) <= a.count(y) {
                lemma_same_size(b, a);
            }
        }
        let x = choose|x: CandidateModel| a.count(x) > b.count(x);
        let y = choose|y: CandidateModel| b.count(y) > a.count(y);
        assert(all.sub(b).contains(x) && b.contains(y));
        assert(all.sub(a).contains(y) && a.contains(x));
        candidates_are_ordered(x, y, x);
    }
}

/// There is one reading order of given files.
pub proof fn the_reading_order_is_unique(files: Seq<CandidateModel>, others: Seq<CandidateModel>)
    requires
        by_reading(files),
        by_reading(others),
        files.to_multiset() == others.to_multiset(),
    ensures
        files == others,
{
    let not_after = |a: CandidateModel, b: CandidateModel| !read_before(b, a);
    assert forall|a: CandidateModel| #[trigger] not_after(a, a) by {
        candidates_are_ordered(a, a, a);
    }
    assert forall|a: CandidateModel, b: CandidateModel|
        #[trigger] not_after(a, b) && #[trigger] not_after(b, a) implies a == b by {
        candidates_are_ordered(a, b, a);
    }
    assert forall|a: CandidateModel, b: CandidateModel, c: CandidateModel|
        #[trigger] not_after(a, b) && #[trigger] not_after(b, c) implies not_after(a, c) by {
        candidates_are_ordered(a, b, c);
        candidates_are_ordered(c, a, b);
        candidates_are_ordered(b, c, a);
    }
    assert forall|a: CandidateModel, b: CandidateModel| #[trigger]
        not_after(a, b) || #[trigger] not_after(b, a) by {
        candidates_are_ordered(a, b, a);
    }
    assert(total_ordering(not_after));
    assert(sorted_by(files, not_after));
    assert(sorted_by(others, not_after));
    lemma_sorted_unique(files, others, not_after);
}

/// Names are ordered by the first byte in which they differ, and a name comes
/// before those that go on behind it.
pub proof fn names_are_in_byte_order(
    start: Seq<u8>,
    x: u8,
    y: u8,
    a: Seq<u8>,
    b: Seq<u8>,
)
    requires
        x < y,
    ensures
        name_before(start + seq![x] + a, start + seq![y] + b),
        name_before(start, start + seq![x] + a),
    decreases start.len(),
{
    let (p, q) = (start + seq![x] + a, start + seq![y] + b);
    if start.len() > 0 {
        let rest = start.drop_first();
        names_are_in_byte_order(rest, x, y, a, b);
        assert(p.drop_first() =~= rest + seq![x] + a);
        assert(q.drop_first() =~= rest + seq![y] + b);
    }
}

/// Paths are ordered by the first name in which they differ, and a path comes
/// before those below it.
pub proof fn paths_are_in_name_order(
    start: Seq<Seq<u8>>,
    x: Seq<u8>,
    y: Seq<u8>,
    a: Seq<Seq<u8>>,
    b: Seq<Seq<u8>>,
)
    requires
        name_before(x, y),
    ensures
        path_before(start + seq![x] + a, start + seq![y] + b),
        path_before(start, start + seq![x] + a),
    decreases start.len(),
{
    let (p, q) = (start + seq![x] + a, start + seq![y] + b);
    names_are_ordered(x, y, x);
    if start.len() > 0 {
        let rest = start.drop_first();
        paths_are_in_name_order(rest, x, y, a, b);
        assert(p.drop_first() =~= rest + seq![x] + a);
        assert(q.drop_first() =~= rest + seq![y] + b);
    }
}

/// The time decides which of two files is older and which is read first, and the
/// path decides only between files of one time.
pub proof fn the_time_decides_before_the_path(a: CandidateModel, b: CandidateModel)
    ensures
        a.modified < b.modified ==> older(a, b) && !older(b, a) && read_before(b, a)
            && !read_before(a, b),
        a.modified == b.modified ==> (older(a, b) <==> path_before(a.path, b.path)) && (read_before(
            a,
            b,
        ) <==> path_before(a.path, b.path)),
{
}

/// What gives way in a full collection is its oldest file, and it gives way to
/// newer files only; where there is room every file is added.
pub proof fn the_oldest_gives_way(
    limit: nat,
    kept: Multiset<CandidateModel>,
    file: CandidateModel,
    other: CandidateModel,
)
    ensures
        kept.len() < limit ==> after_offer(limit, kept, file) == kept.insert(file) && !pushes_out(
            limit,
            kept,
            file,
        ),
        kept.len() > 0 ==> kept.contains(oldest(kept)),
        kept.contains(other) ==> !older(other, oldest(kept)),
        kept.len() >= limit && kept.len() > 0 && older(oldest(kept), file) ==> pushes_out(
            limit,
            kept,
            file,
        ) && after_offer(limit, kept, file) == kept.remove(oldest(kept)).insert(file),
        kept.len() >= limit && !(kept.len() > 0 && older(oldest(kept), file)) ==> !pushes_out(
            limit,
            kept,
            file,
        ) && after_offer(limit, kept, file) == kept,
{
    if kept.len() > 0 {
        lemma_oldest_exists(kept);
    } else {
        assert(kept.count(other) == 0);
    }
}

/// A candidate is its time and the names on its path, all of them in their order.
pub proof fn candidates_are_their_time_and_path(file: Candidate, i: int)
    ensures
        file@.modified == file.modified,
        file@.path.len() == file.path@.len(),
        0 <= i < file.path@.len() ==> file@.path[i] == file.path@[i]@,
{
}

/// What candidates are they are one by one, in their order.
pub proof fn candidates_are_one_by_one(files: Seq<Candidate>, i: int)
    requires
        0 <= i < files.len(),
    ensures
        models(files).len() == files.len(),
        models(files)[i] == files[i]@,
{
}

} // verus!
