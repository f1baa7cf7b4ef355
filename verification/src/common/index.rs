//! The index: an ordered list of slots, one per line of the index file.
//! Slot `n`, counted from 1, belongs to note `n` for good. A slot holds the
//! note's file name, or nothing once the note is deleted; slots are never
//! removed or reused, so ids stay stable.

use vstd::prelude::*;
use vstd::string::*;
use crate::common::init::{index_path_of, join_path};
use crate::common::text::{
    is_plain_line, join_lines, joined, law_lines_hold_no_line_feed, law_lines_round_trip,
    lemma_scan_line, lines_from, lines_of, same_text, split_lines, strip_cr, texts, trim, trimmed,
};

verus! {

/// The error of asking for a slot or a file name that the index does not hold.
#[derive(Debug, Clone, Copy, PartialEq, Eq)]
pub struct NotFoundError {}

/// Every slot paired with its id, in order.
pub open spec fn listed(slots: Seq<Seq<char>>) -> Seq<(int, Seq<char>)> {
    Seq::new(slots.len(), |i: int| (i + 1, slots[i]))
}

/// The slot of `id`, where the index has one.
pub open spec fn looked_up(slots: Seq<Seq<char>>, id: int) -> Option<Seq<char>> {
    if 1 <= id <= slots.len() {
        Some(slots[id - 1])
    } else {
        None
    }
}

/// Tells whether a slot names `filename`, white space around it aside.
pub open spec fn names(slot: Seq<char>, filename: Seq<char>) -> bool {
    trim(slot) == filename
}

/// The position of the first slot at or after `i` that names `filename`, or
/// the number of slots where none does.
pub open spec fn find_from(slots: Seq<Seq<char>>, filename: Seq<char>, i: int) -> int
    decreases slots.len() - i,
{
    if i < 0 || i >= slots.len() {
        slots.len() as int
    } else if names(slots[i], filename) {
        i
    } else {
        find_from(slots, filename, i + 1)
    }
}

/// The slots after the first one that names `filename` was emptied; `None`
/// where no slot names it.
pub open spec fn tombstoned(slots: Seq<Seq<char>>, filename: Seq<char>) -> Option<
    Seq<Seq<char>>,
> {
    let k = find_from(slots, filename, 0);
    if k < slots.len() {
        Some(slots.update(k, Seq::empty()))
    } else {
        None
    }
}

/// The slots after each of `added` was appended in turn.
pub open spec fn append_all(slots: Seq<Seq<char>>, added: Seq<Seq<char>>) -> Seq<Seq<char>>
    decreases added.len(),
{
    if added.len() == 0 {
        slots
    } else {
        append_all(slots, added.drop_last()).push(added.last())
    }
}

/// The notes among the first `n` slots that still exist: each slot that
/// holds more than white space, trimmed and paired with its id.
pub open spec fn live(slots: Seq<Seq<char>>, n: int) -> Seq<(int, Seq<char>)>
    decreases n,
{
    if n <= 0 || n > slots.len() {
        Seq::empty()
    } else if trim(slots[n - 1]).len() > 0 {
        live(slots, n - 1).push((n, trim(slots[n - 1])))
    } else {
        live(slots, n - 1)
    }
}

/// What a vector of entries stands for: ids as integers, names as texts.
pub open spec fn entries(v: Seq<(usize, String)>) -> Seq<(int, Seq<char>)> {
    Seq::new(v.len(), |i: int| (v[i].0 as int, v[i].1@))
}

/// The index held in memory, one string per slot.
pub struct IndexStore {
    lines: Vec<String>,
}

impl View for IndexStore {
    type V = Seq<Seq<char>>;

    closed spec fn view(&self) -> Seq<Seq<char>> {
        texts(self.lines@)
    }
}

impl IndexStore {
    /// An index without slots.
    pub fn new() -> (store: IndexStore)
        ensures
            store@ == Seq::<Seq<char>>::empty(),
    {
        let store = IndexStore { lines: Vec::new() };
        assert(store@ =~= Seq::<Seq<char>>::empty());
        store
    }

    /// Reads an index from the content of its file, one slot per line.
    pub fn parse(content: &str) -> (store: IndexStore)
        ensures
            store@ == split_lines(content@),
    {
        IndexStore { lines: lines_of(content) }
    }

    /// The content of the index file: every slot followed by a line feed.
    pub fn render(&self) -> (content: String)
        ensures
            content@ == join_lines(self@),
    {
        joined(&self.lines)
    }

    /// The number of slots, which is also the highest id given out.
    pub fn len(&self) -> (n: usize)
        ensures
            n == self@.len(),
    {
        self.lines.len()
    }

    /// Adds a slot for `filename` at the end; its id is the new number of
    /// slots. Emptied slots are not reused.
    pub fn append(&mut self, filename: &str)
        ensures
            final(self)@ == old(self)@.push(filename@),
    {
        self.lines.push(filename.to_owned());
        assert(self@ =~= old(self)@.push(filename@));
    }

    /// The content of slot `id`. An emptied slot is found, and is empty.
    pub fn lookup(&self, id: usize) -> (r: Result<String, NotFoundError>)
        ensures
            match looked_up(self@, id as int) {
                Some(slot) => r is Ok && r->Ok_0@ == slot,
                None => r is Err,
            },
    {
        if 1 <= id && id <= self.lines.len() {
            Ok(self.lines[id - 1].clone())
        } else {
            Err(NotFoundError {  })
        }
    }

    /// Empties the first slot that names `filename`. Every other slot keeps
    /// its content and its id. Where no slot names it, nothing changes.
    pub fn tombstone(&mut self, filename: &str) -> (r: Result<(), NotFoundError>)
        ensures
            match tombstoned(old(self)@, filename@) {
                Some(slots) => r is Ok && final(self)@ == slots,
                None => r is Err && final(self)@ == old(self)@,
            },
    {
        let mut i: usize = 0;
        while i < self.lines.len()
            invariant
                i <= self.lines@.len(),
                self.lines@ == old(self).lines@,
                find_from(self@, filename@, i as int) == find_from(self@, filename@, 0),
            decreases self.lines@.len() - i,
        {
            let slot = trimmed(self.lines[i].as_str());
            if same_text(slot.as_str(), filename) {
                self.lines.set(i, String::new());
                assert(self@ =~= old(self)@.update(i as int, Seq::empty()));
                return Ok(());
            }
            i += 1;
        }
        Err(NotFoundError {  })
    }

    /// Every slot with its id, emptied slots included.
    pub fn list(&self) -> (r: Vec<(usize, String)>)
        ensures
            entries(r@) == listed(self@),
            r@.len() == self@.len(),
            forall|i: int|
                0 <= i < r@.len() ==> (#[trigger] r@[i]).0 == i + 1 && r@[i].1@ == self@[i],
    {
        let mut r: Vec<(usize, String)> = Vec::new();
        let mut i: usize = 0;
        while i < self.lines.len()
            invariant
                i <= self.lines@.len(),
                entries(r@) == listed(self@.take(i as int)),
            decreases self.lines@.len() - i,
        {
            let ghost before = entries(r@);
            r.push((i + 1, self.lines[i].clone()));
            assert(entries(r@) =~= before.push((i + 1, self@[i as int])));
            i += 1;
            assert(entries(r@) =~= listed(self@.take(i as int)));
        }
        assert(self@.take(i as int) =~= self@);
        assert(r@.len() == entries(r@).len() == self@.len());
        assert forall|k: int| 0 <= k < r@.len() implies (#[trigger] r@[k]).0 == k + 1
            && r@[k].1@ == self@[k] by {
            assert(entries(r@)[k] == listed(self@)[k]);
        }
        r
    }

    /// The notes that still exist, in order: the slots that hold more than
    /// white space, each trimmed and with its id.
    pub fn live_entries(&self) -> (r: Vec<(usize, String)>)
        ensures
            entries(r@) == live(self@, self@.len() as int),
    {
        let mut r: Vec<(usize, String)> = Vec::new();
        let mut i: usize = 0;
        while i < self.lines.len()
            invariant
                i <= self.lines@.len(),
                entries(r@) == live(self@, i as int),
            decreases self.lines@.len() - i,
        {
            let slot = trimmed(self.lines[i].as_str());
            if !slot.as_str().is_empty() {
                let ghost before = entries(r@);
                r.push((i + 1, slot));
                assert(entries(r@) =~= before.push((i + 1, trim(self@[i as int]))));
            }
            i += 1;
        }
        r
    }
}

/// What `find_from` finds: no slot between `i` and the result names
/// `filename`, and the slot at the result does, where there is one.
proof fn lemma_find_from(slots: Seq<Seq<char>>, filename: Seq<char>, i: int)
    requires
        0 <= i <= slots.len(),
    ensures
        i <= find_from(slots, filename, i) <= slots.len(),
        forall|j: int| i <= j < find_from(slots, filename, i) ==> !names(slots[j], filename),
        find_from(slots, filename, i) < slots.len() ==> names(
            slots[find_from(slots, filename, i)],
            filename,
        ),
    decreases slots.len() - i,
{
    if i < slots.len() && !names(slots[i], filename) {
        lemma_find_from(slots, filename, i + 1);
    }
}

/// Appending one name after another adds them at the end, in the order
/// given, and leaves what was there in place.
pub proof fn law_append_all_concatenates(slots: Seq<Seq<char>>, added: Seq<Seq<char>>)
    ensures
        append_all(slots, added) == slots + added,
    decreases added.len(),
{
    if added.len() == 0 {
        assert(slots + added =~= slots);
    } else {
        law_append_all_concatenates(slots, added.drop_last());
        assert((slots + added.drop_last()).push(added.last()) =~= slots + added);
    }
}

/// After any number of appends to an empty index, the listing holds one
/// record for each append, in the order of the appends, with the ids 1, 2, 3
/// and so on.
pub proof fn law_list_after_appends(added: Seq<Seq<char>>)
    ensures
        listed(append_all(Seq::empty(), added)).len() == added.len(),
        forall|i: int|
            0 <= i < added.len() ==> listed(append_all(Seq::empty(), added))[i] == (
                i + 1,
                added[i],
            ),
{
    law_append_all_concatenates(Seq::empty(), added);
    assert(Seq::<Seq<char>>::empty() + added =~= added);
}

/// After any number of appends to an empty index, looking up the id of the
/// n-th append gives the name appended then, and any other id is not found.
pub proof fn law_lookup_after_appends(added: Seq<Seq<char>>, id: int)
    ensures
        1 <= id <= added.len() ==> looked_up(append_all(Seq::empty(), added), id) == Some(
            added[id - 1],
        ),
        id < 1 || id > added.len() ==> looked_up(append_all(Seq::empty(), added), id) is None,
{
    law_append_all_concatenates(Seq::empty(), added);
    assert(Seq::<Seq<char>>::empty() + added =~= added);
}

/// An append gives the new record the id that follows the number of slots,
/// whatever was emptied before.
pub proof fn law_append_takes_next_id(slots: Seq<Seq<char>>, filename: Seq<char>)
    ensures
        listed(slots.push(filename)).len() == slots.len() + 1,
        listed(slots.push(filename)).last() == ((slots.len() + 1) as int, filename),
        forall|id: int|
            1 <= id <= slots.len() ==> looked_up(slots.push(filename), id) == looked_up(
                slots,
                id,
            ),
{
}

/// Listing depends on the slots alone and leaves them as they are: two
/// listings of the same index are the same, record by record.
pub proof fn law_list_repeats(
    slots: Seq<Seq<char>>,
    first: Seq<(int, Seq<char>)>,
    second: Seq<(int, Seq<char>)>,
)
    requires
        first == listed(slots),
        second == listed(slots),
    ensures
        first == second,
        first.len() == slots.len(),
        forall|i: int| 0 <= i < slots.len() ==> first[i] == (i + 1, slots[i]),
{
}

/// The notes that still exist are the slots that hold more than white
/// space: each is listed once under its own id with its trimmed content, in
/// the order of the ids, and no slot that holds a name is left out.
pub proof fn law_live_skips_blank_slots(slots: Seq<Seq<char>>, n: int)
    requires
        0 <= n <= slots.len(),
    ensures
        live(slots, n).len() <= n,
        forall|i: int|
            0 <= i < live(slots, n).len() ==> {
                let e = #[trigger] live(slots, n)[i];
                1 <= e.0 <= n && e.1 == trim(slots[e.0 - 1]) && e.1.len() > 0
            },
        forall|i: int, j: int|
            0 <= i < j < live(slots, n).len() ==> (#[trigger] live(slots, n)[i]).0 < (
            #[trigger] live(slots, n)[j]).0,
        forall|id: int|
            1 <= id <= n && trim(#[trigger] slots[id - 1]).len() > 0 ==> live(slots, n).contains(
                (id, trim(slots[id - 1])),
            ),
    decreases n,
{
    if n > 0 {
        law_live_skips_blank_slots(slots, n - 1);
        let before = live(slots, n - 1);
        let now = live(slots, n);
        assert forall|id: int|
            1 <= id <= n && trim(#[trigger] slots[id - 1]).len() > 0 implies now.contains(
            (id, trim(slots[id - 1])),
        ) by {
            let e = (id, trim(slots[id - 1]));
            if id < n {
                assert(before.contains(e));
                let i = choose|i: int| 0 <= i < before.len() && before[i] == e;
                assert(now[i] == e);
            } else {
                assert(now[before.len() as int] == e);
            }
        }
    }
}

/// A tombstone succeeds exactly where some slot names the file. It then
/// empties the first such slot, at the position returned, and nothing else:
/// the number of slots is the same, and every other slot keeps its content
/// and its id.
pub proof fn law_tombstone_keeps_ids(slots: Seq<Seq<char>>, filename: Seq<char>) -> (k: int)
    requires
        exists|j: int| 0 <= j < slots.len() && names(slots[j], filename),
    ensures
        tombstoned(slots, filename) is Some,
        0 <= k < slots.len(),
        names(slots[k], filename),
        forall|j: int| 0 <= j < k ==> !names(slots[j], filename),
        tombstoned(slots, filename)->0.len() == slots.len(),
        listed(tombstoned(slots, filename)->0).len() == listed(slots).len(),
        tombstoned(slots, filename)->0[k] == Seq::<char>::empty(),
        forall|j: int|
            0 <= j < slots.len() && j != k ==> tombstoned(slots, filename)->0[j] == slots[j],
        forall|j: int|
            0 <= j < slots.len() && j != k ==> listed(tombstoned(slots, filename)->0)[j]
                == listed(slots)[j],
        forall|j: int|
            0 <= j < slots.len() ==> listed(tombstoned(slots, filename)->0)[j].0 == j + 1,
        listed(tombstoned(slots, filename)->0)[k] == (k + 1, Seq::<char>::empty()),
{
    lemma_find_from(slots, filename, 0);
    find_from(slots, filename, 0)
}

/// A tombstone fails exactly where no slot names the file.
pub proof fn law_tombstone_absent(slots: Seq<Seq<char>>, filename: Seq<char>)
    ensures
        tombstoned(slots, filename) is None <==> forall|j: int|
            0 <= j < slots.len() ==> !names(slots[j], filename),
{
    lemma_find_from(slots, filename, 0);
}

/// Writing a slot at the end of the file's content is the same as
/// rendering the index with that slot appended.
pub proof fn law_render_after_append(slots: Seq<Seq<char>>, filename: Seq<char>)
    ensures
        join_lines(slots.push(filename)) == join_lines(slots) + filename.push('\n'),
{
    assert(slots.push(filename).drop_last() =~= slots);
}

/// The path of the index file in the directory of the notes.
pub fn get_index_file_path(home_dir: &str) -> (r: String)
    ensures
        r@ == index_path_of(home_dir@),
{
    join_path(home_dir, ".index")
}

/// The record to write at the end of the index file for a new note: the
/// file name and a line feed.
pub fn add_filename_to_index(filename: &str) -> (record: String)
    ensures
        record@ == filename@.push('\n'),
{
    let mut record = filename.to_owned();
    record.push('\n');
    record
}

/// The content of the index file after the first slot that names
/// `filename` was emptied, given its content before. Where no slot names
/// it, there is no new content and the file is to stay as it is.
pub fn remove_filename_from_index(content: &str, filename: &str) -> (r: Result<
    String,
    NotFoundError,
>)
    ensures
        match tombstoned(split_lines(content@), filename@) {
            Some(slots) => r is Ok && r->Ok_0@ == join_lines(slots),
            None => r is Err,
        },
{
    let mut store = IndexStore::parse(content);
    match store.tombstone(filename) {
        Ok(()) => Ok(store.render()),
        Err(e) => Err(e),
    }
}

/// An index file that this library wrote reads back as the slots it was
/// written from, and a record written at its end is read back as one more
/// slot at the end.
pub proof fn law_file_round_trip(slots: Seq<Seq<char>>, filename: Seq<char>)
    requires
        forall|i: int| 0 <= i < slots.len() ==> is_plain_line(#[trigger] slots[i]),
        is_plain_line(filename),
    ensures
        split_lines(join_lines(slots)) == slots,
        split_lines(join_lines(slots) + filename.push('\n')) == slots.push(filename),
{
    law_lines_round_trip(slots);
    law_render_after_append(slots, filename);
    let more = slots.push(filename);
    assert forall|i: int| 0 <= i < more.len() implies is_plain_line(#[trigger] more[i]) by {
        if i < slots.len() {
            assert(more[i] == slots[i]);
        }
    }
    law_lines_round_trip(more);
}

/// Behind a content that is empty or ends with a line feed, a record adds
/// its line to the lines found from `start`.
proof fn lemma_lines_with_record(content: Seq<char>, filename: Seq<char>, start: int, i: int)
    requires
        content.len() == 0 || content.last() == '\n',
        forall|j: int| 0 <= j < filename.len() ==> filename[j] != '\n',
        0 <= start <= i <= content.len(),
        forall|j: int| start <= j < i ==> content[j] != '\n',
    ensures
        lines_from(content + filename.push('\n'), start, i) == lines_from(content, start, i).push(
            strip_cr(filename),
        ),
    decreases content.len() - i,
{
    let s = content + filename.push('\n');
    let n = content.len() as int;
    let m = filename.len() as int;
    if i == n {
        assert(start == n);
        assert(s[n + m] == '\n');
        assert forall|j: int| n <= j < n + m implies s[j] != '\n' by {
            assert(s[j] == filename[j - n]);
        }
        lemma_scan_line(s, n, n, n + m);
        assert(s.subrange(n, n + m) =~= filename);
        assert(lines_from(s, n + m + 1, n + m + 1) =~= Seq::<Seq<char>>::empty());
        assert(lines_from(content, start, i) =~= Seq::<Seq<char>>::empty());
        assert(lines_from(s, start, i) =~= lines_from(content, start, i).push(
            strip_cr(filename),
        ));
    } else {
        assert(s[i] == content[i]);
        if content[i] == '\n' {
            lemma_lines_with_record(content, filename, i + 1, i + 1);
            assert(s.subrange(start, i) =~= content.subrange(start, i));
            assert(lines_from(s, start, i) =~= lines_from(content, start, i).push(
                strip_cr(filename),
            ));
        } else {
            lemma_lines_with_record(content, filename, start, i + 1);
        }
    }
}

/// A record written at the end of an index file that is empty or ends with
/// a line feed adds exactly one slot, at the end, and leaves every slot
/// before it as it was read. The new slot holds the file name, less a
/// carriage return at its end.
pub proof fn law_append_adds_one_slot(content: Seq<char>, filename: Seq<char>)
    requires
        content.len() == 0 || content.last() == '\n',
        forall|i: int| 0 <= i < filename.len() ==> filename[i] != '\n',
    ensures
        split_lines(content + filename.push('\n')) == split_lines(content).push(
            strip_cr(filename),
        ),
{
    lemma_lines_with_record(content, filename, 0, 0);
}

/// Removing a file name from an index file leaves a file that lists as many
/// slots as before, under the ids 1, 2, 3 and so on: the first slot that
/// named the file, at the position returned, is empty, and every other slot
/// holds what it held. This is said of files in which no line ends with a
/// carriage return behind the one that its line ending took: such a line
/// loses it when the file is written anew.
pub proof fn law_remove_keeps_ids(content: Seq<char>, filename: Seq<char>) -> (k: int)
    requires
        exists|j: int|
            0 <= j < split_lines(content).len() && names(split_lines(content)[j], filename),
        forall|i: int|
            0 <= i < split_lines(content).len() ==> (#[trigger] split_lines(content)[i]).len() > 0
                ==> split_lines(content)[i].last() != '\r',
    ensures
        tombstoned(split_lines(content), filename) is Some,
        0 <= k < split_lines(content).len(),
        names(split_lines(content)[k], filename),
        forall|j: int| 0 <= j < k ==> !names(split_lines(content)[j], filename),
        split_lines(join_lines(tombstoned(split_lines(content), filename)->0)) == tombstoned(
            split_lines(content),
            filename,
        )->0,
        listed(
            split_lines(join_lines(tombstoned(split_lines(content), filename)->0)),
        ).len() == split_lines(content).len(),
        forall|j: int|
            0 <= j < split_lines(content).len() ==> listed(
                split_lines(join_lines(tombstoned(split_lines(content), filename)->0)),
            )[j] == (
                j + 1,
                if j == k {
                    Seq::<char>::empty()
                } else {
                    split_lines(content)[j]
                },
            ),
{
    let slots = split_lines(content);
    let k = law_tombstone_keeps_ids(slots, filename);
    let after = tombstoned(slots, filename)->0;
    law_lines_hold_no_line_feed(content);
    assert forall|i: int| 0 <= i < after.len() implies is_plain_line(#[trigger] after[i]) by {
        if i != k {
            assert(after[i] == slots[i]);
            assert(is_plain_line(slots[i]));
        }
    }
    law_lines_round_trip(after);
    k
}

} // verus!
