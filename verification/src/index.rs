use vstd::prelude::*;
use crate::paths::supported_extension;
use crate::paths::has_supported_extension;

verus! {

/// The 128-bit content hash of an image file, used to reject duplicate
/// content: on upload and when the storage directory is collected.
#[derive(Clone, Copy, PartialEq, Eq, Structural, Debug)]
pub struct ImageHash {
    pub hi: u64,
    pub lo: u64,
}

/// One stored image, identified by its path relative to the storage root.
/// Within one index snapshot that path is unique.
#[derive(Debug)]
pub struct Image {
    pub path: String,
}

impl View for Image {
    type V = Seq<char>;

    open spec fn view(&self) -> Seq<char> {
        self.path@
    }
}

impl Clone for Image {
    fn clone(&self) -> (r: Self)
        ensures
            r@ == self@,
    {
        Image { path: self.path.clone() }
    }
}

/// An event broadcast to index subscribers, in emission order.
#[derive(Debug)]
pub enum Change {
    /// One image inserted directly, by the upload path.
    Addition { image: Image },
    /// The difference between two consecutive snapshots, computed by a
    /// rescan.  Never empty: empty updates are not emitted.
    Update { additions: Vec<Image>, deletions: Vec<Image> },
}

/// Why a direct insert was refused.
#[derive(Debug)]
pub enum IndexError {
    /// The index already holds this content or this path; the payload is
    /// the path of the entry already present.
    Duplicate { path: String },
}

/// Why collecting the storage directory was refused.
#[derive(Debug)]
pub enum CollectionError {
    /// Two eligible files carry the same content or the same path; the
    /// payload is the path of the second.
    Duplicate { path: String },
}

/// One directory entry as the scan at the storage root reports it: the
/// path relative to the root, whether it is a directory, and the content
/// hash of the file's bytes.
pub struct ScanEntry {
    pub path: String,
    pub is_dir: bool,
    pub hash: ImageHash,
}

/// The hashes of an entry list, in order.
pub open spec fn entry_hashes(s: Seq<(ImageHash, Image)>) -> Seq<ImageHash> {
    s.map_values(|e: (ImageHash, Image)| e.0)
}

/// The image paths of an entry list, in order.
pub open spec fn entry_paths(s: Seq<(ImageHash, Image)>) -> Seq<Seq<char>> {
    s.map_values(|e: (ImageHash, Image)| e.1.path@)
}

/// An entry list fit to be an index: no hash and no path occurs twice.
pub open spec fn entries_wf(s: Seq<(ImageHash, Image)>) -> bool {
    forall|i: int, j: int|
        #![trigger entry_hashes(s)[i], entry_hashes(s)[j]]
        #![trigger entry_paths(s)[i], entry_paths(s)[j]]
        0 <= i < j < s.len() ==> entry_hashes(s)[i] != entry_hashes(s)[j] && entry_paths(s)[i]
            != entry_paths(s)[j]
}

/// The paths of an image list, in order.
pub open spec fn image_paths(s: Seq<Image>) -> Seq<Seq<char>> {
    s.map_values(|im: Image| im.path@)
}

/// The paths of `newer` that are not in `older`, in the order of `newer`:
/// one half of the set difference between two snapshots.
pub open spec fn fresh_paths(newer: Seq<Seq<char>>, older: Seq<Seq<char>>) -> Seq<Seq<char>>
    decreases newer.len(),
{
    if newer.len() == 0 {
        Seq::empty()
    } else {
        let rest = fresh_paths(newer.drop_last(), older);
        if older.contains(newer.last()) {
            rest
        } else {
            rest.push(newer.last())
        }
    }
}

/// The set difference a rescan broadcasts is sound and complete: a path
/// is among the fresh paths of `newer` against `older` exactly when
/// `newer` has it and `older` does not.  In particular a path inserted
/// by an upload, being already indexed, is never announced again by the
/// rescan that later observes its file.
pub proof fn lemma_fresh_paths_iff(newer: Seq<Seq<char>>, older: Seq<Seq<char>>, x: Seq<char>)
    ensures
        fresh_paths(newer, older).contains(x) == (newer.contains(x) && !older.contains(x)),
    decreases newer.len(),
{
    if newer.len() == 0 {
    } else {
        let rest = fresh_paths(newer.drop_last(), older);
        let whole = fresh_paths(newer, older);
        lemma_fresh_paths_iff(newer.drop_last(), older, x);
        if newer.drop_last().contains(x) {
            let k = choose|k: int|
                0 <= k < newer.drop_last().len() && newer.drop_last()[k] == x;
            assert(newer[k] == x);
        }
        if rest.contains(x) {
            let k = choose|k: int| 0 <= k < rest.len() && rest[k] == x;
            if !older.contains(newer.last()) {
                assert(whole[k] == x);
            }
        }
        if !older.contains(newer.last()) {
            if whole.contains(x) {
                let k = choose|k: int| 0 <= k < whole.len() && whole[k] == x;
                if k < rest.len() {
                    assert(rest[k] == x);
                } else {
                    assert(x == newer.last());
                    assert(newer[newer.len() - 1] == x);
                }
            }
            if newer.contains(x) && !older.contains(x) {
                let k = choose|k: int| 0 <= k < newer.len() && newer[k] == x;
                if k < newer.len() - 1 {
                    assert(newer.drop_last()[k] == x);
                } else {
                    assert(whole[rest.len() as int] == x);
                }
            }
            assert(whole.contains(x) == (newer.contains(x) && !older.contains(x)));
        } else {
            if newer.contains(x) && !older.contains(x) {
                let k = choose|k: int| 0 <= k < newer.len() && newer[k] == x;
                assert(k < newer.len() - 1);
                assert(newer.drop_last()[k] == x);
            }
        }
    }
}

/// The authoritative in-memory index of known images.
///
/// Exactly one task owns a value of this type and applies commands to it
/// one at a time; everything the owner broadcasts is recorded, in
/// emission order, in the ghost `log`, so subscription contracts can
/// speak of the stream each subscriber receives.
pub struct Indexer {
    entries: Vec<(ImageHash, Image)>,
    log: Ghost<Seq<Change>>,
}

/// A subscriber's handle into the broadcast stream: it will receive
/// every `Change` emitted after the point it subscribed, in order.
pub struct Subscription {
    pub seen: Ghost<nat>,
}

/// The returned change is a direct insert of exactly this path.
pub open spec fn change_is_addition_of(c: Change, p: Seq<char>) -> bool {
    c matches Change::Addition { image: img } && img@ == p
}

/// What a successful insert did: the image was new by content and by
/// path, it is appended to the index, and the returned change — its
/// addition — is emitted as the next element of the broadcast stream.
pub open spec fn add_ok(pre: Indexer, post: Indexer, hash: ImageHash, p: Seq<char>, c: Change) -> bool {
    &&& !pre.hashes().contains(hash)
    &&& !pre.paths().contains(p)
    &&& change_is_addition_of(c, p)
    &&& post.hashes() == pre.hashes().push(hash)
    &&& post.paths() == pre.paths().push(p)
    &&& post.emitted() == pre.emitted().push(c)
}

impl Indexer {
    /// The entry list, newest last.
    pub closed spec fn entries_seq(self) -> Seq<(ImageHash, Image)> {
        self.entries@
    }

    /// The content hashes known to the index, in entry order.
    pub open spec fn hashes(self) -> Seq<ImageHash> {
        entry_hashes(self.entries_seq())
    }

    /// The image paths known to the index, in entry order.
    pub open spec fn paths(self) -> Seq<Seq<char>> {
        entry_paths(self.entries_seq())
    }

    /// Everything broadcast so far, in emission order.
    pub closed spec fn emitted(self) -> Seq<Change> {
        self.log@
    }

    /// No hash and no path is indexed twice.
    pub open spec fn wf(self) -> bool {
        entries_wf(self.entries_seq())
    }

    /// The stream a subscriber has not yet consumed: everything emitted
    /// since it subscribed.
    pub open spec fn pending(self, sub: Subscription) -> Seq<Change> {
        self.emitted().skip(sub.seen@ as int)
    }

    /// An empty index: the state at actor startup, before the first scan.
    pub fn new() -> (ix: Indexer)
        ensures
            ix.wf(),
            ix.paths().len() == 0,
            ix.hashes().len() == 0,
            ix.emitted().len() == 0,
    {
        Indexer { entries: Vec::new(), log: Ghost(Seq::empty()) }
    }

    /// The current snapshot: an independent copy of every known image, in
    /// entry order.  Always answers with the last completed state; it
    /// never waits on a rescan.
    pub fn index(&self) -> (snapshot: Vec<Image>)
        ensures
            image_paths(snapshot@) == self.paths(),
    {
        let mut snapshot: Vec<Image> = Vec::new();
        let n = self.entries.len();
        for i in 0..n
            invariant
                n == self.entries.len(),
                snapshot@.len() == i,
                forall|j: int|
                    #![trigger image_paths(snapshot@)[j]]
                    0 <= j < i ==> image_paths(snapshot@)[j] == self.paths()[j],
        {
            let ghost prev = snapshot@;
            snapshot.push(self.entries[i].1.clone());
            proof {
                assert forall|j: int|
                    #![trigger image_paths(snapshot@)[j]]
                    0 <= j < i + 1 implies image_paths(snapshot@)[j] == self.paths()[j] by {
                    assert(image_paths(snapshot@)[j] == snapshot@[j].path@);
                    if j < i {
                        assert(snapshot@[j] == prev[j]);
                        assert(image_paths(prev)[j] == prev[j].path@);
                    } else {
                        assert(snapshot@[j].path@ == self.entries_seq()[j].1.path@);
                    }
                }
            }
        }
        assert(image_paths(snapshot@) =~= self.paths());
        snapshot
    }

    /// Subscribe to the broadcast stream: the handle will see exactly the
    /// changes emitted after this point, in order, with no replay of
    /// history.
    pub fn subscribe(&self) -> (sub: Subscription)
        ensures
            sub.seen@ == self.emitted().len(),
    {
        Subscription { seen: Ghost(self.log@.len()) }
    }

    /// Subscribe, then take the snapshot, as one atomic step of the
    /// actor.  A consumer that wants "exactly the changes since my
    /// snapshot" must use this order: subscribing after the snapshot
    /// could silently lose a change emitted between the two.
    pub fn subscribe_then_snapshot(&self) -> (r: (Subscription, Vec<Image>))
        ensures
            r.0.seen@ == self.emitted().len(),
            self.pending(r.0).len() == 0,
            image_paths(r.1@) == self.paths(),
    {
        (self.subscribe(), self.index())
    }

    /// Insert one image directly, as the upload path does after writing
    /// the file, so it is visible at once rather than after the next
    /// debounced rescan.  Succeeds, appends and emits its addition if and
    /// only if neither the content hash nor the path is already indexed;
    /// otherwise nothing changes and the duplicate's path is returned.
    pub fn add_image(&mut self, hash: ImageHash, img: Image) -> (r: Result<Change, IndexError>)
        requires
            old(self).wf(),
        ensures
            final(self).wf(),
            match r {
                Ok(c) => add_ok(*old(self), *final(self), hash, img@, c),
                Err(IndexError::Duplicate { path }) => {
                    &&& *final(self) == *old(self)
                    &&& exists|i: int|
                        0 <= i < old(self).paths().len() && (#[trigger] old(self).hashes()[i]
                            == hash || old(self).paths()[i] == img@) && path@ == old(
                            self,
                        ).paths()[i]
                },
            },
    {
        let n = self.entries.len();
        let mut i: usize = 0;
        while i < n
            invariant
                self == old(self),
                old(self).wf(),
                i <= n,
                n == self.entries.len(),
                forall|j: int|
                    #![trigger self.hashes()[j]]
                    #![trigger self.paths()[j]]
                    0 <= j < i ==> self.hashes()[j] != hash && self.paths()[j] != img@,
            decreases n - i,
        {
            let dup_hash = self.entries[i].0 == hash;
            let dup_path = self.entries[i].1.path.eq(&img.path);
            assert(self.hashes()[i as int] == self.entries_seq()[i as int].0);
            assert(self.paths()[i as int] == self.entries_seq()[i as int].1.path@);
            if dup_hash || dup_path {
                return Err(IndexError::Duplicate { path: self.entries[i].1.path.clone() });
            }
            i += 1;
        }
        let ghost pre = *self;
        self.entries.push((hash, img.clone()));
        let c = Change::Addition { image: img };
        proof {
            self.log@ = self.log@.push(c);
        }
        assert(self.hashes() =~= pre.hashes().push(hash));
        assert(self.paths() =~= pre.paths().push(img@));
        assert(!pre.hashes().contains(hash) && !pre.paths().contains(img@)) by {
            if pre.hashes().contains(hash) {
                let k = choose|k: int|
                    0 <= k < pre.hashes().len() && pre.hashes()[k] == hash;
            }
            if pre.paths().contains(img@) {
                let k = choose|k: int|
                    0 <= k < pre.paths().len() && pre.paths()[k] == img@;
            }
        }
        assert(self.wf()) by {
            assert forall|a: int, b: int|
                #![trigger self.hashes()[a], self.hashes()[b]]
                #![trigger self.paths()[a], self.paths()[b]]
                0 <= a < b < self.entries_seq().len() implies self.hashes()[a] != self.hashes()[b]
                && self.paths()[a] != self.paths()[b] by {
                if b < pre.entries_seq().len() {
                    assert(pre.hashes()[a] == self.hashes()[a]);
                    assert(pre.paths()[a] == self.paths()[a]);
                } else {
                    assert(!pre.hashes().contains(hash));
                    assert(pre.hashes()[a] == self.hashes()[a]);
                    assert(pre.paths()[a] == self.paths()[a]);
                }
            }
        }
        Ok(c)
    }

    /// Apply the outcome of a full directory scan: replace the snapshot
    /// wholesale with the scanned entries, and broadcast the difference
    /// against the previous snapshot — what appeared and what went away,
    /// each in scan order — unless it is empty, since empty updates are
    /// never emitted.  A failed scan never reaches this point: the caller
    /// keeps the previous snapshot and the actor stays responsive.
    pub fn rescan(&mut self, scan: Vec<(ImageHash, Image)>) -> (r: Option<Change>)
        requires
            old(self).wf(),
            entries_wf(scan@),
        ensures
            final(self).wf(),
            final(self).paths() == entry_paths(scan@),
            final(self).hashes() == entry_hashes(scan@),
            ({
                let adds = fresh_paths(entry_paths(scan@), old(self).paths());
                let dels = fresh_paths(old(self).paths(), entry_paths(scan@));
                match r {
                    None => adds.len() == 0 && dels.len() == 0 && final(self).emitted() == old(
                        self,
                    ).emitted(),
                    Some(c) => {
                        &&& c matches Change::Update { additions, deletions }
                            && image_paths(additions@) == adds && image_paths(deletions@) == dels
                        &&& adds.len() + dels.len() > 0
                        &&& final(self).emitted() == old(self).emitted().push(c)
                    },
                }
            }),
    {
        let ghost newpaths = entry_paths(scan@);
        let mut additions: Vec<Image> = Vec::new();
        let n = scan.len();
        let mut i: usize = 0;
        while i < n
            invariant
                self == old(self),
                i <= n,
                n == scan.len(),
                newpaths == entry_paths(scan@),
                image_paths(additions@) == fresh_paths(newpaths.take(i as int), self.paths()),
            decreases n - i,
        {
            let ghost prefix = newpaths.take(i as int);
            let ghost longer = newpaths.take(i + 1);
            proof {
                assert(longer.drop_last() =~= prefix);
                assert(longer.last() == newpaths[i as int]);
                assert(newpaths[i as int] == scan@[i as int].1.path@);
            }
            let present = contains_path(&self.entries, &scan[i].1.path);
            if !present {
                let ghost before = additions@;
                additions.push(scan[i].1.clone());
                proof {
                    assert(image_paths(additions@) =~= image_paths(before).push(
                        scan@[i as int].1.path@,
                    ));
                }
            }
            i += 1;
        }
        proof {
            assert(newpaths.take(n as int) =~= newpaths);
        }
        let mut deletions: Vec<Image> = Vec::new();
        let ghost oldpaths = self.paths();
        let m = self.entries.len();
        let mut k: usize = 0;
        while k < m
            invariant
                self == old(self),
                k <= m,
                m == self.entries.len(),
                oldpaths == self.paths(),
                image_paths(deletions@) == fresh_paths(oldpaths.take(k as int), entry_paths(
                    scan@,
                )),
            decreases m - k,
        {
            let ghost prefix = oldpaths.take(k as int);
            let ghost longer = oldpaths.take(k + 1);
            proof {
                assert(longer.drop_last() =~= prefix);
                assert(longer.last() == oldpaths[k as int]);
                assert(oldpaths[k as int] == self.entries_seq()[k as int].1.path@);
            }
            let present = contains_path(&scan, &self.entries[k].1.path);
            if !present {
                let ghost before = deletions@;
                deletions.push(self.entries[k].1.clone());
                proof {
                    assert(image_paths(deletions@) =~= image_paths(before).push(
                        oldpaths[k as int],
                    ));
                }
            }
            k += 1;
        }
        proof {
            assert(oldpaths.take(m as int) =~= oldpaths);
        }
        self.entries = scan;
        if additions.is_empty() && deletions.is_empty() {
            assert(image_paths(additions@).len() == 0);
            assert(image_paths(deletions@).len() == 0);
            None
        } else {
            let c = Change::Update { additions, deletions };
            proof {
                self.log@ = self.log@.push(c);
            }
            Some(c)
        }
    }
}

/// Whether some entry's image has exactly this path.
fn contains_path(entries: &Vec<(ImageHash, Image)>, path: &String) -> (b: bool)
    ensures
        b == entry_paths(entries@).contains(path@),
{
    let n = entries.len();
    let mut i: usize = 0;
    while i < n
        invariant
            i <= n,
            n == entries.len(),
            forall|j: int|
                #![trigger entry_paths(entries@)[j]]
                0 <= j < i ==> entry_paths(entries@)[j] != path@,
        decreases n - i,
    {
        if entries[i].1.path.eq(path) {
            assert(entry_paths(entries@)[i as int] == path@);
            return true;
        }
        assert(entry_paths(entries@)[i as int] == entries@[i as int].1.path@);
        i += 1;
    }
    assert(!entry_paths(entries@).contains(path@)) by {
        if entry_paths(entries@).contains(path@) {
            let k = choose|k: int|
                0 <= k < entry_paths(entries@).len() && entry_paths(entries@)[k] == path@;
        }
    }
    false
}

/// No hash occurs twice.
pub open spec fn distinct_hashes(s: Seq<ImageHash>) -> bool {
    forall|i: int, j: int| #![trigger s[i], s[j]] 0 <= i < j < s.len() ==> s[i] != s[j]
}

/// No path occurs twice.
pub open spec fn distinct_paths(s: Seq<Seq<char>>) -> bool {
    forall|i: int, j: int| #![trigger s[i], s[j]] 0 <= i < j < s.len() ==> s[i] != s[j]
}

/// Whether a scan entry is an eligible image file: a file, not a
/// directory, whose name carries a supported image extension.
pub open spec fn eligible(e: ScanEntry) -> bool {
    !e.is_dir && supported_extension(e.path@)
}

/// The content hashes of the eligible files, in scan order.
pub open spec fn collect_hashes(s: Seq<ScanEntry>) -> Seq<ImageHash>
    decreases s.len(),
{
    if s.len() == 0 {
        Seq::empty()
    } else {
        let rest = collect_hashes(s.drop_last());
        if eligible(s.last()) {
            rest.push(s.last().hash)
        } else {
            rest
        }
    }
}

/// The paths of the eligible files, in scan order.
pub open spec fn collect_paths(s: Seq<ScanEntry>) -> Seq<Seq<char>>
    decreases s.len(),
{
    if s.len() == 0 {
        Seq::empty()
    } else {
        let rest = collect_paths(s.drop_last());
        if eligible(s.last()) {
            rest.push(s.last().path@)
        } else {
            rest
        }
    }
}

/// No two eligible files of the scan share content or path.
pub open spec fn collect_wf(s: Seq<ScanEntry>) -> bool {
    distinct_hashes(collect_hashes(s)) && distinct_paths(collect_paths(s))
}

proof fn lemma_collect_lens(s: Seq<ScanEntry>)
    ensures
        collect_hashes(s).len() == collect_paths(s).len(),
    decreases s.len(),
{
    if s.len() > 0 {
        lemma_collect_lens(s.drop_last());
    }
}

proof fn lemma_collect_prefix(s: Seq<ScanEntry>, i: int)
    requires
        0 <= i <= s.len(),
    ensures
        collect_hashes(s.take(i)).len() == collect_paths(s.take(i)).len(),
        collect_hashes(s.take(i)).len() <= collect_hashes(s).len(),
        forall|k: int|
            #![trigger collect_hashes(s.take(i))[k]]
            #![trigger collect_paths(s.take(i))[k]]
            0 <= k < collect_hashes(s.take(i)).len() ==> collect_hashes(s)[k] == collect_hashes(
                s.take(i),
            )[k] && collect_paths(s)[k] == collect_paths(s.take(i))[k],
    decreases s.len() - i,
{
    lemma_collect_lens(s.take(i));
    lemma_collect_lens(s);
    if i == s.len() {
        assert(s.take(i) =~= s);
    } else {
        lemma_collect_prefix(s, i + 1);
        lemma_collect_lens(s.take(i + 1));
        assert(s.take(i + 1).drop_last() =~= s.take(i));
        assert(s.take(i + 1).last() == s[i]);
        assert(collect_hashes(s.take(i + 1)) == if eligible(s[i]) {
            collect_hashes(s.take(i)).push(s[i].hash)
        } else {
            collect_hashes(s.take(i))
        });
        assert(collect_paths(s.take(i + 1)) == if eligible(s[i]) {
            collect_paths(s.take(i)).push(s[i].path@)
        } else {
            collect_paths(s.take(i))
        });
        assert forall|k: int|
            #![trigger collect_hashes(s.take(i))[k]]
            #![trigger collect_paths(s.take(i))[k]]
            0 <= k < collect_hashes(s.take(i)).len() implies collect_hashes(s)[k]
            == collect_hashes(s.take(i))[k] && collect_paths(s)[k] == collect_paths(
            s.take(i),
        )[k] by {
            assert(collect_hashes(s.take(i + 1))[k] == collect_hashes(s.take(i))[k]);
            assert(collect_paths(s.take(i + 1))[k] == collect_paths(s.take(i))[k]);
        }
    }
}

/// Whether some entry has exactly this content hash.
fn contains_hash(entries: &Vec<(ImageHash, Image)>, hash: ImageHash) -> (b: bool)
    ensures
        b == entry_hashes(entries@).contains(hash),
{
    let n = entries.len();
    let mut i: usize = 0;
    while i < n
        invariant
            i <= n,
            n == entries.len(),
            forall|j: int|
                #![trigger entry_hashes(entries@)[j]]
                0 <= j < i ==> entry_hashes(entries@)[j] != hash,
        decreases n - i,
    {
        if entries[i].0 == hash {
            assert(entry_hashes(entries@)[i as int] == hash);
            return true;
        }
        assert(entry_hashes(entries@)[i as int] == entries@[i as int].0);
        i += 1;
    }
    assert(!entry_hashes(entries@).contains(hash)) by {
        if entry_hashes(entries@).contains(hash) {
            let k = choose|k: int|
                0 <= k < entry_hashes(entries@).len() && entry_hashes(entries@)[k] == hash;
        }
    }
    false
}

/// Build index entries from a scan of the storage root.  Directories and
/// files without a supported image extension are skipped.  Succeeds with
/// the eligible files, in scan order, exactly when no two of them share
/// a content hash or a path; otherwise the second of a clashing pair is
/// named in the error and nothing is collected.
pub fn collect_images(scan: Vec<ScanEntry>) -> (r: Result<
    Vec<(ImageHash, Image)>,
    CollectionError,
>)
    ensures
        match r {
            Ok(v) => {
                &&& entry_hashes(v@) == collect_hashes(scan@)
                &&& entry_paths(v@) == collect_paths(scan@)
                &&& entries_wf(v@)
                &&& collect_wf(scan@)
            },
            Err(CollectionError::Duplicate { path }) => {
                &&& !collect_wf(scan@)
                &&& exists|a: int, b: int|
                    #![trigger collect_paths(scan@)[a], collect_paths(scan@)[b]]
                    0 <= a < b < collect_paths(scan@).len() && (collect_hashes(scan@)[a]
                        == collect_hashes(scan@)[b] || collect_paths(scan@)[a] == collect_paths(
                        scan@,
                    )[b]) && path@ == collect_paths(scan@)[b]
            },
        },
{
    let mut acc: Vec<(ImageHash, Image)> = Vec::new();
    let n = scan.len();
    let mut i: usize = 0;
    while i < n
        invariant
            i <= n,
            n == scan.len(),
            entry_hashes(acc@) == collect_hashes(scan@.take(i as int)),
            entry_paths(acc@) == collect_paths(scan@.take(i as int)),
            entries_wf(acc@),
        decreases n - i,
    {
        proof {
            assert(scan@.take(i + 1).drop_last() =~= scan@.take(i as int));
            assert(scan@.take(i + 1).last() == scan@[i as int]);
        }
        let skip_dir = scan[i].is_dir;
        let good_ext = if skip_dir {
            false
        } else {
            has_supported_extension(scan[i].path.as_str())
        };
        if !skip_dir && good_ext {
            let dup_hash = contains_hash(&acc, scan[i].hash);
            let dup_path = contains_path(&acc, &scan[i].path);
            if dup_hash || dup_path {
                proof {
                    lemma_collect_lens(scan@.take(i as int));
                    lemma_collect_lens(scan@);
                    lemma_collect_prefix(scan@, i + 1);
                    let pre_h = collect_hashes(scan@.take(i as int));
                    let pre_p = collect_paths(scan@.take(i as int));
                    let here = pre_h.len() as int;
                    assert(eligible(scan@[i as int]));
                    assert(collect_hashes(scan@.take(i + 1)) == pre_h.push(scan@[i as int].hash));
                    assert(collect_paths(scan@.take(i + 1)) == pre_p.push(scan@[i as int].path@));
                    assert(collect_hashes(scan@.take(i + 1))[here] == scan@[i as int].hash);
                    assert(collect_paths(scan@.take(i + 1))[here] == scan@[i as int].path@);
                    assert(collect_hashes(scan@)[here] == scan@[i as int].hash);
                    assert(collect_paths(scan@)[here] == scan@[i as int].path@);
                    assert(collect_paths(scan@).contains(scan@[i as int].path@));
                    if dup_hash {
                        let k = choose|k: int|
                            0 <= k < entry_hashes(acc@).len() && entry_hashes(acc@)[k] == scan@[i as int].hash;
                        assert(collect_hashes(scan@.take(i + 1))[k] == scan@[i as int].hash);
                        assert(collect_hashes(scan@)[k] == scan@[i as int].hash);
                        assert(!distinct_hashes(collect_hashes(scan@)));
                    } else {
                        let k = choose|k: int|
                            0 <= k < entry_paths(acc@).len() && entry_paths(acc@)[k] == scan@[i as int].path@;
                        assert(collect_paths(scan@.take(i + 1))[k] == scan@[i as int].path@);
                        assert(collect_paths(scan@)[k] == scan@[i as int].path@);
                        assert(!distinct_paths(collect_paths(scan@)));
                    }
                }
                assert(exists|a: int, b: int|
                    #![trigger collect_paths(scan@)[a], collect_paths(scan@)[b]]
                    0 <= a < b < collect_paths(scan@).len() && (collect_hashes(scan@)[a]
                        == collect_hashes(scan@)[b] || collect_paths(scan@)[a] == collect_paths(
                        scan@,
                    )[b]) && scan@[i as int].path@ == collect_paths(scan@)[b]) by {
                    let here = collect_hashes(scan@.take(i as int)).len() as int;
                    if dup_hash {
                        let k = choose|k: int|
                            0 <= k < entry_hashes(acc@).len() && entry_hashes(acc@)[k] == scan@[i as int].hash;
                        assert(collect_paths(scan@)[k] == collect_paths(scan@)[k]);
                        assert(collect_hashes(scan@)[k] == collect_hashes(scan@)[here]);
                        assert(scan@[i as int].path@ == collect_paths(scan@)[here]);
                    } else {
                        let k = choose|k: int|
                            0 <= k < entry_paths(acc@).len() && entry_paths(acc@)[k] == scan@[i as int].path@;
                        assert(collect_paths(scan@)[k] == collect_paths(scan@)[here]);
                        assert(scan@[i as int].path@ == collect_paths(scan@)[here]);
                    }
                }
                return Err(CollectionError::Duplicate { path: scan[i].path.clone() });
            }
            let ghost before = acc@;
            acc.push((scan[i].hash, Image { path: scan[i].path.clone() }));
            proof {
                assert(entry_hashes(acc@) =~= entry_hashes(before).push(scan@[i as int].hash));
                assert(entry_paths(acc@) =~= entry_paths(before).push(scan@[i as int].path@));
                assert(entries_wf(acc@)) by {
                    assert forall|a: int, b: int|
                        #![trigger entry_hashes(acc@)[a], entry_hashes(acc@)[b]]
                        #![trigger entry_paths(acc@)[a], entry_paths(acc@)[b]]
                        0 <= a < b < acc@.len() implies entry_hashes(acc@)[a] != entry_hashes(
                        acc@,
                    )[b] && entry_paths(acc@)[a] != entry_paths(acc@)[b] by {
                        if b < before.len() {
                            assert(entry_hashes(before)[a] == entry_hashes(acc@)[a]);
                            assert(entry_paths(before)[a] == entry_paths(acc@)[a]);
                            assert(entry_hashes(before)[b] == entry_hashes(acc@)[b]);
                            assert(entry_paths(before)[b] == entry_paths(acc@)[b]);
                        } else {
                            assert(entry_hashes(before)[a] == entry_hashes(acc@)[a]);
                            assert(entry_paths(before)[a] == entry_paths(acc@)[a]);
                            assert(!entry_hashes(before).contains(scan@[i as int].hash));
                            assert(!entry_paths(before).contains(scan@[i as int].path@));
                        }
                    }
                }
            }
        }
        i += 1;
    }
    proof {
        assert(scan@.take(n as int) =~= scan@);
        assert(collect_wf(scan@)) by {
            assert(distinct_hashes(collect_hashes(scan@))) by {
                assert forall|a: int, b: int|
                    #![trigger collect_hashes(scan@)[a], collect_hashes(scan@)[b]]
                    0 <= a < b < collect_hashes(scan@).len() implies collect_hashes(scan@)[a]
                    != collect_hashes(scan@)[b] by {
                    assert(entry_hashes(acc@)[a] == collect_hashes(scan@)[a]);
                    assert(entry_hashes(acc@)[b] == collect_hashes(scan@)[b]);
                }
            }
            assert(distinct_paths(collect_paths(scan@))) by {
                lemma_collect_lens(scan@);
                assert forall|a: int, b: int|
                    #![trigger collect_paths(scan@)[a], collect_paths(scan@)[b]]
                    0 <= a < b < collect_paths(scan@).len() implies collect_paths(scan@)[a]
                    != collect_paths(scan@)[b] by {
                    assert(entry_paths(acc@)[a] == collect_paths(scan@)[a]);
                    assert(entry_paths(acc@)[b] == collect_paths(scan@)[b]);
                }
            }
        }
    }
    Ok(acc)
}

/// What the 128-bit HighwayHash of a byte string under a key is: a pure
/// function of key and bytes, the same in every process.
pub uninterp spec fn highway128_of(key: Seq<u64>, data: Seq<u8>) -> (u64, u64);

/// Relies on highway's HighwayHasher: new(Key), append, finalize128
/// compute the 128-bit HighwayHash of the appended bytes under the key,
/// a function of the key and the bytes alone.
#[verifier::external_body]
fn highway128(key: &[u64; 4], data: &Vec<u8>) -> (h: (u64, u64))
    ensures
        h == highway128_of(key@, data@),
{
    let mut hasher = highway::HighwayHasher::new(highway::Key(*key));
    highway::HighwayHash::append(&mut hasher, data.as_slice());
    let out = highway::HighwayHash::finalize128(hasher);
    (out[0], out[1])
}

/// The key every content hash of this library is computed under.
pub open spec fn spec_hash_key() -> Seq<u64> {
    seq![1u64, 3u64, 3u64, 7u64]
}

/// The content hash of a file's bytes.
pub open spec fn spec_image_hash(data: Seq<u8>) -> ImageHash {
    ImageHash {
        hi: highway128_of(spec_hash_key(), data).0,
        lo: highway128_of(spec_hash_key(), data).1,
    }
}

/// Hash a file's bytes for duplicate detection.
pub fn hash_bytes(data: &Vec<u8>) -> (h: ImageHash)
    ensures
        h == spec_image_hash(data@),
{
    let key: [u64; 4] = [1, 3, 3, 7];
    proof {
        assert(key@ =~= spec_hash_key());
    }
    let pair = highway128(&key, data);
    ImageHash { hi: pair.0, lo: pair.1 }
}

/// No-gap subscription: a subscriber that subscribes and then takes the
/// snapshot, after which the actor performs one successful insert, finds
/// that insert's addition as the one and only pending change of its
/// stream — never zero times — and the added path was not yet in its
/// bootstrap snapshot, so it is never seen twice either.
pub proof fn lemma_no_gap_subscription(
    pre: Indexer,
    post: Indexer,
    sub: Subscription,
    hash: ImageHash,
    p: Seq<char>,
    c: Change,
)
    requires
        sub.seen@ == pre.emitted().len(),
        add_ok(pre, post, hash, p, c),
    ensures
        post.pending(sub) =~= seq![c],
        change_is_addition_of(c, p),
        !pre.paths().contains(p),
{
    assert(post.emitted() == pre.emitted().push(c));
}

} // verus!
