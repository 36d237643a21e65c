use vstd::prelude::*;

use crate::bz_task::info::{compute_rate, rate_of, BzTaskInfo, PROGRESS_SCALE};
use crate::codec::{
    decode_string_list, decode_strings, encode_string_list, encode_strings, strings_view,
};

verus! {

/// The segment uris a media playlist resolves to, in playlist order. Named
/// only: what exactly a playlist parses to is the parser's business; the
/// logic here works for every value of it.
pub uninterp spec fn playlist_segment_uris(bytes: Seq<u8>) -> Seq<Seq<char>>;

/// Whether the bytes are a media playlist the grammar accepts. Named only,
/// like the segment list: it depends on the input bytes alone.
pub uninterp spec fn playlist_parses(bytes: Seq<u8>) -> bool;

/// Relies on m3u8_rs::parse_media_playlist: parses a media playlist and
/// yields its segments' uris in playlist order. The result depends on the
/// input bytes alone; exactly the manifests the grammar rejects give
/// `None`.
#[verifier::external_body]
fn parse_playlist_segment_uris(content: &Vec<u8>) -> (r: Option<Vec<String>>)
    ensures
        r is Some <==> playlist_parses(content@),
        r matches Some(uris) ==> uris@.map_values(|u: String| u@) == playlist_segment_uris(
            content@,
        ),
{
    match m3u8_rs::parse_media_playlist(content) {
        Ok((_rest, playlist)) => Some(
            playlist.segments.into_iter().map(|segment| segment.uri).collect(),
        ),
        Err(_) => None,
    }
}

/// Whether some string of the list has this value.
pub open spec fn seq_contains_str(items: Seq<String>, x: Seq<char>) -> bool {
    exists|i: int| 0 <= i < items.len() && items[i]@ == x
}

/// The position of the string with this value; meaningful when
/// `seq_contains_str` holds of a distinct list.
pub open spec fn str_index_of(items: Seq<String>, x: Seq<char>) -> int {
    choose|i: int| 0 <= i < items.len() && items[i]@ == x
}

/// No two strings of the list have the same value: the list is a set.
pub open spec fn distinct_strs(items: Seq<String>) -> bool {
    forall|i: int, j: int| 0 <= i < j < items.len() ==> items[i]@ != items[j]@
}

/// The uris that are not yet in the given downloaded set: what still needs
/// to be fetched.
pub open spec fn not_downloaded(downloaded: Seq<String>) -> spec_fn(String) -> bool {
    |u: String| !seq_contains_str(downloaded, u@)
}

/// Whether a string value is in the list.
fn contains_string(items: &Vec<String>, x: &String) -> (r: bool)
    ensures
        r == seq_contains_str(items@, x@),
{
    let mut k: usize = 0;
    while k < items.len()
        invariant
            k <= items@.len(),
            forall|j: int| 0 <= j < k ==> (#[trigger] items@[j])@ != x@,
        decreases items@.len() - k,
    {
        if items[k] == *x {
            proof {
                assert(items@[k as int]@ == x@);
            }
            return true;
        }
        k = k + 1;
    }
    false
}

/// The progress bookkeeping of a segmented-playlist task: which segment uris
/// are already fetched (a set, persisted to the sidecar file so a restart
/// can skip them), which ones remain, and how many there are in total.
pub struct M3u8TaskProgress {
    /// Path of the sidecar file this set is persisted to.
    pub save_file: String,
    /// Already-fetched uris; no value twice.
    pub downloaded: Vec<String>,
    /// Still to fetch, consumed from the back.
    pub todos: Vec<String>,
    /// How many segments the playlist has in total.
    pub total: usize,
}

/// What can happen to the downloaded set.
pub enum M3u8TaskProgressMessage {
    Add(String),
    Remove(String),
}

impl M3u8TaskProgress {
    /// The downloaded set never holds a value twice.
    pub open spec fn wf(&self) -> bool {
        distinct_strs(self.downloaded@)
    }

    /// Empty bookkeeping whose sidecar file sits in the given directory.
    pub fn new(temp_dir: &str) -> (r: Self)
        ensures
            r.wf(),
            r.save_file@ == temp_dir@ + "/process.json"@,
            r.downloaded@.len() == 0,
            r.todos@.len() == 0,
            r.total == 0,
    {
        M3u8TaskProgress {
            save_file: temp_dir.to_owned().concat("/process.json"),
            downloaded: Vec::new(),
            todos: Vec::new(),
            total: 0,
        }
    }

    /// Takes the resolved segment list in: the total is the whole list, and
    /// exactly the uris that are not already downloaded are scheduled, in
    /// list order. Resuming with a non-empty downloaded set schedules only
    /// the complement.
    pub fn init_tasks(&mut self, uris: &Vec<String>)
        requires
            old(self).wf(),
        ensures
            final(self).wf(),
            final(self).save_file == old(self).save_file,
            final(self).downloaded == old(self).downloaded,
            final(self).total as int == uris@.len() as int,
            final(self).todos@ == old(self).todos@ + uris@.filter(
                not_downloaded(old(self).downloaded@),
            ),
    {
        self.total = uris.len();
        let ghost pred = not_downloaded(self.downloaded@);
        let mut k: usize = 0;
        while k < uris.len()
            invariant
                k <= uris@.len(),
                self.wf(),
                self.downloaded == old(self).downloaded,
                self.save_file == old(self).save_file,
                self.total as int == uris@.len() as int,
                pred == not_downloaded(old(self).downloaded@),
                self.todos@ == old(self).todos@ + uris@.subrange(0, k as int).filter(pred),
            decreases uris@.len() - k,
        {
            let ghost sub = uris@.subrange(0, k as int);
            let ghost x = uris@[k as int];
            proof {
                assert(uris@.subrange(0, k as int + 1) =~= sub.push(x));
                sub.lemma_filter_push(x, pred);
            }
            if !contains_string(&self.downloaded, &uris[k]) {
                self.todos.push(uris[k].clone());
                proof {
                    assert(pred(x));
                    assert((old(self).todos@ + sub.filter(pred)).push(x) =~= old(self).todos@
                        + sub.filter(pred).push(x));
                }
            } else {
                proof {
                    assert(!pred(x));
                }
            }
            k = k + 1;
        }
        proof {
            assert(uris@.subrange(0, uris@.len() as int) =~= uris@);
        }
    }

    /// Applies one change to the downloaded set: `Add` puts a value in (a
    /// value already there stays single), `Remove` takes it out.
    pub fn _update(&mut self, message: M3u8TaskProgressMessage)
        requires
            old(self).wf(),
        ensures
            final(self).wf(),
            final(self).save_file == old(self).save_file,
            final(self).todos == old(self).todos,
            final(self).total == old(self).total,
            match message {
                M3u8TaskProgressMessage::Add(url) => if seq_contains_str(
                    old(self).downloaded@,
                    url@,
                ) {
                    final(self).downloaded == old(self).downloaded
                } else {
                    final(self).downloaded@ == old(self).downloaded@.push(url)
                },
                M3u8TaskProgressMessage::Remove(url) => if !seq_contains_str(
                    old(self).downloaded@,
                    url@,
                ) {
                    final(self).downloaded == old(self).downloaded
                } else {
                    final(self).downloaded@ == old(self).downloaded@.remove(
                        str_index_of(old(self).downloaded@, url@),
                    )
                },
            },
    {
        match message {
            M3u8TaskProgressMessage::Add(url) => {
                if !contains_string(&self.downloaded, &url) {
                    let ghost before = self.downloaded@;
                    let ghost added = url;
                    self.downloaded.push(url);
                    proof {
                        assert forall|i: int, j: int|
                            0 <= i < j < self.downloaded@.len() implies self.downloaded@[i]@
                            != self.downloaded@[j]@ by {
                            if j < before.len() {
                            } else {
                                assert(self.downloaded@[j] == added);
                                assert(!seq_contains_str(before, added@));
                                assert(self.downloaded@[i] == before[i]);
                            }
                        }
                    }
                }
            },
            M3u8TaskProgressMessage::Remove(url) => {
                match self.find_downloaded(&url) {
                    Some(i) => {
                        proof {
                            lemma_str_index_unique(self.downloaded@, url@, i as int);
                            lemma_distinct_after_remove(self.downloaded@, i as int);
                        }
                        self.downloaded.remove(i);
                    },
                    None => {},
                }
            },
        }
    }

    /// Where a value sits in the downloaded set, if it is there.
    fn find_downloaded(&self, url: &String) -> (r: Option<usize>)
        ensures
            match r {
                Some(i) => i < self.downloaded@.len() && self.downloaded@[i as int]@ == url@,
                None => !seq_contains_str(self.downloaded@, url@),
            },
    {
        let mut k: usize = 0;
        while k < self.downloaded.len()
            invariant
                k <= self.downloaded@.len(),
                forall|j: int| 0 <= j < k ==> (#[trigger] self.downloaded@[j])@ != url@,
            decreases self.downloaded@.len() - k,
        {
            if self.downloaded[k] == *url {
                return Some(k);
            }
            k = k + 1;
        }
        None
    }

    /// The progress fraction: downloaded over total, capped at 1.
    pub fn rate(&self) -> (r: u64)
        ensures
            r as nat == rate_of(self.downloaded@.len(), self.total as nat),
            r <= PROGRESS_SCALE,
    {
        compute_rate(self.downloaded.len() as u64, self.total as u64)
    }

    /// Replaces the downloaded set with what a sidecar text holds, keeping
    /// each value once; a text that is not a well-formed string array is
    /// reported as `false` and changes nothing.
    pub fn load(&mut self, text: &str) -> (r: bool)
        ensures
            final(self).save_file == old(self).save_file,
            final(self).todos == old(self).todos,
            final(self).total == old(self).total,
            r == (decode_strings(text@) is Some),
            !r ==> *final(self) == *old(self),
            r ==> final(self).wf(),
            r ==> (decode_strings(text@) matches Some(vals) && (forall|x: Seq<char>|
                #![auto]
                seq_contains_str(final(self).downloaded@, x) <==> vals.contains(x))),
    {
        let items = match decode_string_list(text) {
            Some(v) => v,
            None => {
                return false;
            },
        };
        let ghost vals = decode_strings(text@)->Some_0;
        let mut dedup: Vec<String> = Vec::new();
        let mut k: usize = 0;
        while k < items.len()
            invariant
                k <= items@.len(),
                distinct_strs(dedup@),
                forall|x: Seq<char>|
                    #![auto]
                    seq_contains_str(dedup@, x) <==> exists|m: int|
                        0 <= m < k && items@[m]@ == x,
            decreases items@.len() - k,
        {
            let ghost before = dedup@;
            let ghost e = items@[k as int];
            if !contains_string(&dedup, &items[k]) {
                dedup.push(items[k].clone());
                proof {
                    assert forall|a: int, b: int| 0 <= a < b < dedup@.len() implies dedup@[a]@
                        != dedup@[b]@ by {
                        if b < before.len() {
                        } else {
                            assert(dedup@[b] == e);
                            assert(!seq_contains_str(before, e@));
                            assert(dedup@[a] == before[a]);
                        }
                    }
                }
            }
            proof {
                assert forall|x: Seq<char>| seq_contains_str(dedup@, x) implies exists|m: int|
                    0 <= m < k + 1 && items@[m]@ == x by {
                    let idx = choose|idx: int|
                        0 <= idx < dedup@.len() && (#[trigger] dedup@[idx])@ == x;
                    if idx < before.len() {
                        assert(seq_contains_str(before, x));
                    } else {
                        assert(items@[k as int]@ == x);
                    }
                }
                assert forall|x: Seq<char>| (exists|m: int| 0 <= m < k + 1 && items@[m]@ == x)
                    implies seq_contains_str(dedup@, x) by {
                    let m = choose|m: int| 0 <= m < k + 1 && (#[trigger] items@[m])@ == x;
                    if m < k {
                        assert(seq_contains_str(before, x));
                        let idx = choose|idx: int|
                            0 <= idx < before.len() && (#[trigger] before[idx])@ == x;
                        assert(dedup@[idx]@ == x);
                    } else {
                        if seq_contains_str(before, e@) {
                            let idx = choose|idx: int|
                                0 <= idx < before.len() && (#[trigger] before[idx])@ == e@;
                            assert(dedup@[idx]@ == x);
                        } else {
                            assert(dedup@[dedup@.len() - 1]@ == x);
                        }
                    }
                }
            }
            k = k + 1;
        }
        self.downloaded = dedup;
        proof {
            assert(strings_view(items@) == vals);
            assert forall|x: Seq<char>| seq_contains_str(self.downloaded@, x) implies vals.contains(
                x,
            ) by {
                let m = choose|m: int|
                    0 <= m < items@.len() && (#[trigger] items@[m])@ == x;
                assert(strings_view(items@)[m] == x);
            }
            assert forall|x: Seq<char>| vals.contains(x) implies seq_contains_str(
                self.downloaded@,
                x,
            ) by {
                let m = choose|m: int| 0 <= m < vals.len() && vals[m] == x;
                assert(strings_view(items@)[m] == items@[m]@);
            }
        }
        true
    }

    /// The sidecar text that persists the downloaded set.
    pub fn dump(&self) -> (r: String)
        ensures
            r@ == encode_strings(strings_view(self.downloaded@)),
    {
        encode_string_list(&self.downloaded)
    }
}

/// A distinct list's only position holding a value is what `str_index_of`
/// names.
pub proof fn lemma_str_index_unique(items: Seq<String>, x: Seq<char>, i: int)
    requires
        distinct_strs(items),
        0 <= i < items.len(),
        items[i]@ == x,
    ensures
        seq_contains_str(items, x),
        str_index_of(items, x) == i,
{
    assert(seq_contains_str(items, x));
    let j = str_index_of(items, x);
    assert(0 <= j < items.len() && items[j]@ == x);
    if i < j {
        assert(items[i]@ != items[j]@);
    } else if j < i {
        assert(items[j]@ != items[i]@);
    }
}

/// Taking an element out of a distinct list leaves it distinct.
pub proof fn lemma_distinct_after_remove(items: Seq<String>, i: int)
    requires
        distinct_strs(items),
        0 <= i < items.len(),
    ensures
        distinct_strs(items.remove(i)),
{
    let removed = items.remove(i);
    assert forall|a: int, b: int| 0 <= a < b < removed.len() implies removed[a]@ != removed[b]@ by {
        let a0 = if a < i { a } else { a + 1 };
        let b0 = if b < i { b } else { b + 1 };
        assert(removed[a] == items[a0]);
        assert(removed[b] == items[b0]);
    }
}

/// A segmented-playlist download task: its descriptor, its progress
/// bookkeeping, and the resolved segment uris.
pub struct M3u8Task {
    pub task_info: BzTaskInfo,
    pub progress: M3u8TaskProgress,
    pub uris: Vec<String>,
}

impl M3u8Task {
    /// A task over this descriptor, with empty bookkeeping whose sidecar
    /// file sits in the descriptor's cache directory.
    pub fn new(task_info: &BzTaskInfo) -> (r: Self)
        ensures
            r.task_info == *task_info,
            r.progress.wf(),
            r.progress.save_file@ == task_info.cache@ + "/process.json"@,
            r.progress.downloaded@.len() == 0,
            r.progress.todos@.len() == 0,
            r.progress.total == 0,
            r.uris@.len() == 0,
    {
        M3u8Task {
            task_info: task_info.clone(),
            progress: M3u8TaskProgress::new(task_info.cache.as_str()),
            uris: Vec::new(),
        }
    }

    /// Resolves the manifest bytes to the segment uri list, in playlist
    /// order; `None` exactly when the manifest does not parse.
    pub fn get_ts_file_list(&self, index_content: &Vec<u8>) -> (r: Option<Vec<String>>)
        ensures
            r is Some <==> playlist_parses(index_content@),
            r matches Some(uris) ==> uris@.map_values(|u: String| u@) == playlist_segment_uris(
                index_content@,
            ),
    {
        parse_playlist_segment_uris(index_content)
    }

    /// Prepares the task from its manifest bytes and, when one exists, the
    /// text of its progress sidecar: resolves the segment list, takes the
    /// previously downloaded set over, and schedules exactly the segments
    /// that are not in it. `false` — and no change — exactly when the
    /// manifest does not parse or the sidecar text is malformed; the caller
    /// then fails the task rather than panic.
    pub fn prepare(&mut self, index_content: &Vec<u8>, progress_text: Option<&str>) -> (r: bool)
        requires
            old(self).progress.wf(),
            old(self).progress.todos@.len() == 0,
        ensures
            r == (playlist_parses(index_content@) && match progress_text {
                Some(t) => decode_strings(t@) is Some,
                None => true,
            }),
            !r ==> *final(self) == *old(self),
            r ==> {
                &&& final(self).task_info == old(self).task_info
                &&& final(self).progress.save_file == old(self).progress.save_file
                &&& final(self).progress.wf()
                &&& final(self).uris@.map_values(|u: String| u@) == playlist_segment_uris(
                    index_content@,
                )
                &&& final(self).progress.total as int == final(self).uris@.len() as int
                &&& match progress_text {
                    Some(t) => decode_strings(t@) matches Some(vals) && (forall|x: Seq<char>|
                        #![auto]
                        seq_contains_str(final(self).progress.downloaded@, x) <==> vals.contains(
                            x,
                        )),
                    None => final(self).progress.downloaded@ == old(self).progress.downloaded@,
                }
                &&& final(self).progress.todos@ == final(self).uris@.filter(
                    not_downloaded(final(self).progress.downloaded@),
                )
            },
    {
        let uris = match self.get_ts_file_list(index_content) {
            Some(u) => u,
            None => {
                return false;
            },
        };
        match progress_text {
            Some(t) => {
                if !self.progress.load(t) {
                    return false;
                }
            },
            None => {},
        }
        self.progress.init_tasks(&uris);
        self.uris = uris;
        true
    }

    /// Pops the next segment to fetch, from the back of the schedule.
    pub fn take_next_uri(&mut self) -> (r: Option<String>)
        ensures
            final(self).task_info == old(self).task_info,
            final(self).uris == old(self).uris,
            final(self).progress.save_file == old(self).progress.save_file,
            final(self).progress.downloaded == old(self).progress.downloaded,
            final(self).progress.total == old(self).progress.total,
            match r {
                Some(u) => old(self).progress.todos@.len() > 0 && u == old(
                    self,
                ).progress.todos@.last() && final(self).progress.todos@ == old(
                    self,
                ).progress.todos@.drop_last(),
                None => old(self).progress.todos@.len() == 0 && final(self).progress.todos@ == old(
                    self,
                ).progress.todos@,
            },
    {
        let r = self.progress.todos.pop();
        proof {
            if old(self).progress.todos@.len() > 0 {
                assert(self.progress.todos@ =~= old(self).progress.todos@.drop_last());
            }
        }
        r
    }

    /// Marks one segment fetched and reports the new progress fraction.
    pub fn complete_uri(&mut self, uri: String) -> (r: u64)
        requires
            old(self).progress.wf(),
        ensures
            final(self).progress.wf(),
            final(self).task_info == old(self).task_info,
            final(self).uris == old(self).uris,
            final(self).progress.save_file == old(self).progress.save_file,
            final(self).progress.todos == old(self).progress.todos,
            final(self).progress.total == old(self).progress.total,
            if seq_contains_str(old(self).progress.downloaded@, uri@) {
                final(self).progress.downloaded == old(self).progress.downloaded
            } else {
                final(self).progress.downloaded@ == old(self).progress.downloaded@.push(uri)
            },
            r as nat == rate_of(
                final(self).progress.downloaded@.len(),
                final(self).progress.total as nat,
            ),
            r <= PROGRESS_SCALE,
    {
        self.progress._update(M3u8TaskProgressMessage::Add(uri));
        self.progress.rate()
    }
}

} // verus!
