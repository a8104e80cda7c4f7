//! A journal of fixed capacity.
//!
//! Every record is framed as a little-endian 16-bit text length, a level byte
//! and the UTF-8 text. A record that does not fit is dropped whole and counted.

use vstd::prelude::*;

verus! {

/// Bytes in front of the text of every record.
pub const HEADER_LEN: usize = 3;

/// Severity of a journal record.
#[derive(Debug, Clone, Copy, PartialEq, Eq, Structural)]
pub enum Level {
    Info,
    Warn,
}

/// A record as a reader sees it: its level and its text.
pub type Record = (Level, Seq<char>);

impl Level {
    /// The byte that stands for the level in a frame.
    pub open spec fn byte(self) -> u8 {
        match self {
            Level::Info => 0,
            Level::Warn => 1,
        }
    }

    /// The level that a frame's byte stands for.
    pub open spec fn of_byte(byte: u8) -> Option<Level> {
        if byte == 0 {
            Some(Level::Info)
        } else if byte == 1 {
            Some(Level::Warn)
        } else {
            None
        }
    }

    pub fn from_byte(byte: u8) -> (level: Option<Self>)
        ensures
            level == Level::of_byte(byte),
    {
        match byte {
            0 => Some(Level::Info),
            1 => Some(Level::Warn),
            _ => None,
        }
    }

    pub fn to_byte(self) -> (byte: u8)
        ensures
            byte == self.byte(),
    {
        match self {
            Level::Info => 0,
            Level::Warn => 1,
        }
    }
}

/// The bytes of one record. The length field holds the low 16 bits of the
/// text's length.
pub open spec fn frame(record: Record) -> Seq<u8> {
    let text = vstd::utf8::encode_utf8(record.1);
    seq![
        (text.len() % 256) as u8,
        (text.len() / 256 % 256) as u8,
        record.0.byte(),
    ] + text
}

/// The bytes of a run of records, oldest first.
pub open spec fn encoded(records: Seq<Record>) -> Seq<u8>
    decreases records.len(),
{
    if records.len() == 0 {
        Seq::empty()
    } else {
        encoded(records.drop_last()) + frame(records.last())
    }
}

/// What a journal holds: the records it kept, and how many it turned away.
#[verifier::ext_equal]
pub struct Journal {
    pub records: Seq<Record>,
    pub dropped: nat,
}

impl Journal {
    pub open spec fn empty() -> Journal {
        Journal { records: Seq::empty(), dropped: 0 }
    }

    /// Whether a record with this text still fits into `capacity` bytes.
    pub open spec fn fits(self, text: Seq<char>, capacity: nat) -> bool {
        encoded(self.records).len() + HEADER_LEN + vstd::utf8::encode_utf8(text).len() <= capacity
    }

    /// The journal after one more record was offered to it.
    pub open spec fn offered(self, level: Level, text: Seq<char>, capacity: nat) -> Journal {
        if self.fits(text, capacity) {
            Journal { records: self.records.push((level, text)), dropped: self.dropped }
        } else {
            Journal { records: self.records, dropped: self.dropped + 1 }
        }
    }
}

/// The record at the front of `bytes` and the number of bytes it takes, if
/// there is a complete, legible one.
pub open spec fn first_record(bytes: Seq<u8>) -> Option<(Record, nat)> {
    if bytes.len() < HEADER_LEN {
        None
    } else {
        let end = (HEADER_LEN + bytes[0] + 256 * bytes[1]) as nat;
        match Level::of_byte(bytes[2]) {
            Some(level) if end <= bytes.len() && vstd::utf8::valid_utf8(
                bytes.subrange(HEADER_LEN as int, end as int),
            ) => Some(
                (
                    (level, vstd::utf8::decode_utf8(bytes.subrange(HEADER_LEN as int, end as int))),
                    end,
                ),
            ),
            _ => None,
        }
    }
}

/// The records that reading `bytes` from the front gives, up to the first
/// place where no legible record starts.
pub open spec fn replayed(bytes: Seq<u8>) -> Seq<Record>
    decreases bytes.len(),
{
    match first_record(bytes) {
        Some((record, end)) => seq![record] + replayed(bytes.skip(end as int)),
        None => Seq::empty(),
    }
}

/// Whether the text's length can be told from a frame's length field.
pub open spec fn has_exact_length(record: Record) -> bool {
    vstd::utf8::encode_utf8(record.1).len() <= u16::MAX
}

/// The text that a run of string pieces spells.
pub open spec fn joined(pieces: Seq<&str>) -> Seq<char>
    decreases pieces.len(),
{
    if pieces.len() == 0 {
        Seq::empty()
    } else {
        joined(pieces.drop_last()) + pieces.last()@
    }
}

/// The bytes in use and the records that they spell.
struct Used {
    len: usize,
    records: Ghost<Seq<Record>>,
}

/// A journal kept in `N` bytes.
pub struct LogBuffer<const N: usize> {
    bytes: [u8; N],
    used: Used,
    dropped: usize,
}

impl<const N: usize> View for LogBuffer<N> {
    type V = Journal;

    closed spec fn view(&self) -> Journal {
        Journal { records: self.used.records@, dropped: self.dropped as nat }
    }
}

proof fn lemma_encode_utf8_add(a: Seq<char>, b: Seq<char>)
    ensures
        vstd::utf8::encode_utf8(a + b) == vstd::utf8::encode_utf8(a) + vstd::utf8::encode_utf8(b),
    decreases a.len(),
{
    if a.len() == 0 {
        assert(a + b =~= b);
    } else {
        assert((a + b).drop_first() =~= a.drop_first() + b);
        lemma_encode_utf8_add(a.drop_first(), b);
    }
}

proof fn lemma_joined_take(pieces: Seq<&str>, i: int)
    requires
        0 <= i < pieces.len(),
    ensures
        joined(pieces.take(i + 1)) == joined(pieces.take(i)) + pieces[i]@,
{
    assert(pieces.take(i + 1).drop_last() =~= pieces.take(i));
}

proof fn lemma_joined_len_monotone(pieces: Seq<&str>, i: int)
    requires
        0 <= i <= pieces.len(),
    ensures
        vstd::utf8::encode_utf8(joined(pieces.take(i))).len() <= vstd::utf8::encode_utf8(
            joined(pieces),
        ).len(),
    decreases pieces.len() - i,
{
    if i == pieces.len() {
        assert(pieces.take(i) =~= pieces);
    } else {
        lemma_joined_take(pieces, i);
        lemma_encode_utf8_add(joined(pieces.take(i)), pieces[i]@);
        lemma_joined_len_monotone(pieces, i + 1);
    }
}

impl<const N: usize> LogBuffer<N> {
    /// The bytes in use are exactly the frames of the records.
    #[verifier::type_invariant]
    pub closed spec fn well_formed(self) -> bool {
        &&& self.used.len <= N
        &&& self.bytes@.take(self.used.len as int) == encoded(self.used.records@)
    }

    /// An empty journal.
    pub fn new() -> (buffer: Self)
        ensures
            buffer@ == Journal::empty(),
    {
        let bytes = [0u8; N];
        assert(bytes@.take(0) =~= encoded(Seq::empty()));
        LogBuffer { bytes, used: Used { len: 0, records: Ghost(Seq::empty()) }, dropped: 0 }
    }

    /// Sets a byte behind those in use.
    fn set_free(&mut self, at: usize, byte: u8)
        requires
            old(self).used.len <= at < N,
        ensures
            final(self).used == old(self).used,
            final(self).dropped == old(self).dropped,
            final(self).bytes@ == old(self).bytes@.update(at as int, byte),
    {
        proof {
            use_type_invariant(&*self);
        }
        assert(self.bytes@.update(at as int, byte).take(self.used.len as int) =~= self.bytes@.take(
            self.used.len as int,
        ));
        self.bytes[at] = byte;
    }

    /// Writes the bytes of `text` at `start`, behind those in use, and no
    /// others. Returns where they end, or `None`, with nothing written, when
    /// they do not fit.
    fn write_str(&mut self, start: usize, text: &str) -> (end: Option<usize>)
        requires
            old(self).used.len <= start <= N,
        ensures
            final(self).used == old(self).used,
            final(self).dropped == old(self).dropped,
            match end {
                Some(end) => {
                    &&& end == start + vstd::utf8::encode_utf8(text@).len() <= N
                    &&& final(self).bytes@.take(end as int) == old(self).bytes@.take(start as int)
                        + vstd::utf8::encode_utf8(text@)
                    &&& final(self).bytes@.skip(end as int) == old(self).bytes@.skip(end as int)
                },
                None => {
                    &&& start + vstd::utf8::encode_utf8(text@).len() > N
                    &&& final(self).bytes == old(self).bytes
                },
            },
    {
        proof {
            use_type_invariant(&*self);
        }
        let bytes: &[u8] = text.as_bytes();
        let count: usize = bytes.len();

        if count > N - start {
            return None;
        }
        let ghost before = self.bytes@;
        for i in 0..count
            invariant
                count == bytes@.len(),
                start + count <= N,
                self.used.len <= start,
                self.used == old(self).used,
                self.dropped == old(self).dropped,
                before == old(self).bytes@,
                self.bytes@.take(start as int) == before.take(start as int),
                self.bytes@.skip(start + count) == before.skip(start + count),
                self.bytes@.subrange(start as int, start + i) == bytes@.take(i as int),
        {
            let ghost previous = self.bytes@;
            self.set_free(start + i, bytes[i]);
            assert(self.bytes@.take(start as int) =~= previous.take(start as int));
            assert(self.bytes@.skip(start + count) =~= previous.skip(start + count));
            assert(self.bytes@.subrange(start as int, start + i + 1) =~= previous.subrange(
                start as int,
                start + i,
            ).push(bytes@[i as int]));
            assert(bytes@.take(i + 1) =~= bytes@.take(i as int).push(bytes@[i as int]));
        }
        assert(bytes@.take(count as int) =~= bytes@);
        assert(self.bytes@.take(start + count) =~= self.bytes@.take(start as int)
            + self.bytes@.subrange(start as int, start + count));
        Some(start + count)
    }

    /// Records a message that arrives as a run of string pieces, in order. The
    /// record is kept whole or, when a piece overruns the buffer, not at all.
    pub fn record_pieces(&mut self, level: Level, pieces: &[&str])
        requires
            old(self)@.fits(joined(pieces@), N as nat) || old(self)@.dropped < usize::MAX,
        ensures
            final(self)@ == old(self)@.offered(level, joined(pieces@), N as nat),
    {
        proof {
            use_type_invariant(&*self);
        }
        let start: usize = self.used.len;
        let ghost records = self.used.records@;
        let ghost used = encoded(records);
        let ghost text = joined(pieces@);
        assert(used.len() == start);

        if N - start < HEADER_LEN {
            self.dropped = self.dropped + 1;
            return;
        }
        let ghost header = self.bytes@.subrange(start as int, start + HEADER_LEN);
        let mut end: usize = start + HEADER_LEN;
        let mut i: usize = 0;
        assert(self.bytes@.take(end as int) =~= used + header);
        assert(pieces@.take(0) =~= Seq::empty());
        while i < pieces.len()
            invariant
                i <= pieces@.len(),
                start + HEADER_LEN <= end <= N,
                used.len() == start,
                used == encoded(records),
                header.len() == HEADER_LEN,
                text == joined(pieces@),
                self.used == old(self).used,
                self.used.len == start,
                self.used.records@ == records,
                self.dropped == old(self).dropped,
                old(self)@.fits(text, N as nat) || old(self)@.dropped < usize::MAX,
                end == start + HEADER_LEN + vstd::utf8::encode_utf8(
                    joined(pieces@.take(i as int)),
                ).len(),
                self.bytes@.take(end as int) == used + header + vstd::utf8::encode_utf8(
                    joined(pieces@.take(i as int)),
                ),
            decreases pieces@.len() - i,
        {
            proof {
                lemma_joined_take(pieces@, i as int);
                lemma_encode_utf8_add(joined(pieces@.take(i as int)), pieces@[i as int]@);
                lemma_joined_len_monotone(pieces@, i + 1);
            }
            match self.write_str(end, pieces[i]) {
                Some(after) => {
                    end = after;
                    i = i + 1;
                },
                None => {
                    proof {
                        use_type_invariant(&*self);
                    }
                    self.dropped = self.dropped + 1;
                    return;
                },
            }
        }
        assert(pieces@.take(i as int) =~= pieces@);

        let text_len: usize = end - start - HEADER_LEN;
        let ghost body = vstd::utf8::encode_utf8(text);
        assert(text_len == body.len());
        assert(text_len as u8 == (text_len % 256) as u8) by (bit_vector);
        assert((text_len >> 8) as u8 == (text_len / 256 % 256) as u8) by (bit_vector);
        self.set_free(start, #[verifier::truncate] (text_len as u8));
        self.set_free(start + 1, #[verifier::truncate] ((text_len >> 8) as u8));
        self.set_free(start + 2, level.to_byte());
        proof {
            let framed = used + frame((level, text));
            let before = used + header + body;
            assert forall|k: int| 0 <= k < end implies self.bytes@[k] == framed[k] by {
                if k < start || k >= start + HEADER_LEN {
                    assert(self.bytes@[k] == before[k]);
                }
            }
            assert(self.bytes@.take(end as int) =~= framed);
            assert(records.push((level, text)).drop_last() =~= records);
        }
        self.used = Used { len: end, records: Ghost(records.push((level, text))) };
    }

    /// Records `text` at `level`, or counts it as dropped when it does not fit,
    /// which takes a count that can still grow.
    pub fn record(&mut self, level: Level, text: &str)
        requires
            old(self)@.fits(text@, N as nat) || old(self)@.dropped < usize::MAX,
        ensures
            final(self)@ == old(self)@.offered(level, text@, N as nat),
    {
        let pieces = [text];
        proof {
            assert(pieces@.drop_last() =~= Seq::<&str>::empty());
            assert(joined(pieces@.drop_last()) =~= Seq::<char>::empty());
            assert(joined(pieces@) =~= text@);
        }
        self.record_pieces(level, &pieces);
    }

    /// Records `text` as information.
    pub fn info(&mut self, text: &str)
        requires
            old(self)@.fits(text@, N as nat) || old(self)@.dropped < usize::MAX,
        ensures
            final(self)@ == old(self)@.offered(Level::Info, text@, N as nat),
    {
        self.record(Level::Info, text);
    }

    /// Records `text` as a warning.
    pub fn warn(&mut self, text: &str)
        requires
            old(self)@.fits(text@, N as nat) || old(self)@.dropped < usize::MAX,
        ensures
            final(self)@ == old(self)@.offered(Level::Warn, text@, N as nat),
    {
        self.record(Level::Warn, text);
    }

    /// The records kept so far, oldest first.
    pub fn entries(&self) -> (entries: Entries<'_>)
        ensures
            entries@ == encoded(self@.records),
            (forall|i: int|
                0 <= i < self@.records.len() ==> has_exact_length(#[trigger] self@.records[i]))
                ==> replayed(entries@) == self@.records,
            N <= HEADER_LEN + u16::MAX ==> replayed(entries@) == self@.records,
    {
        proof {
            use_type_invariant(self);
            if N <= HEADER_LEN + u16::MAX {
                law_small_buffers_replay_everything(*self);
            }
            if forall|i: int|
                0 <= i < self@.records.len() ==> has_exact_length(#[trigger] self@.records[i]) {
                law_replay_gives_back_what_was_recorded(self@.records);
            }
        }
        let entries = Entries { bytes: &self.bytes[0..self.used.len], offset: 0 };
        assert(entries@ =~= encoded(self@.records));
        entries
    }

    /// How many records were turned away for want of space.
    pub fn dropped(&self) -> (dropped: usize)
        ensures
            dropped == self@.dropped,
    {
        self.dropped
    }

    /// Whether no record was kept.
    pub fn is_empty(&self) -> (empty: bool)
        ensures
            empty <==> self@.records.len() == 0,
    {
        proof {
            use_type_invariant(self);
            lemma_encoded_len(self@.records);
        }
        self.used.len == 0
    }

    /// Forgets every record and the count of dropped ones.
    pub fn clear(&mut self)
        ensures
            final(self)@ == Journal::empty(),
    {
        proof {
            use_type_invariant(&*self);
        }
        assert(self.bytes@.take(0) =~= encoded(Seq::empty()));
        self.used = Used { len: 0, records: Ghost(Seq::empty()) };
        self.dropped = 0;
    }
}

impl<const N: usize> Default for LogBuffer<N> {
    fn default() -> (buffer: Self)
        ensures
            buffer@ == Journal::empty(),
    {
        Self::new()
    }
}

/// `core::str::from_utf8`: it succeeds on valid UTF-8 and on nothing else, and
/// the string it gives has exactly the bytes that it was given.
#[verifier::external_body]
fn str_from_utf8(bytes: &[u8]) -> (text: Option<&str>)
    ensures
        text is Some <==> vstd::utf8::valid_utf8(bytes@),
        text matches Some(string) ==> vstd::utf8::encode_utf8(string@) == bytes@,
{
    core::str::from_utf8(bytes).ok()
}

/// A cursor over the records of a [`LogBuffer`].
pub struct Entries<'a> {
    bytes: &'a [u8],
    offset: usize,
}

impl<'a> View for Entries<'a> {
    type V = Seq<u8>;

    /// The bytes that are still to be read.
    closed spec fn view(&self) -> Seq<u8> {
        self.bytes@.skip(self.offset as int)
    }
}

/// Records as the cursor hands them out, with their texts taken by value.
pub open spec fn records_of(entries: Seq<(Level, &str)>) -> Seq<Record> {
    entries.map_values(|entry: (Level, &str)| (entry.0, entry.1@))
}

impl<'a> Entries<'a> {
    #[verifier::type_invariant]
    spec fn in_bounds(self) -> bool {
        self.offset <= self.bytes@.len()
    }

    /// The next record. Where none can be read the cursor stays where it is.
    pub fn next(&mut self) -> (entry: Option<(Level, &'a str)>)
        ensures
            match first_record(old(self)@) {
                Some((record, end)) => {
                    &&& entry matches Some((level, text)) && (level, text@) == record
                    &&& final(self)@ == old(self)@.skip(end as int)
                },
                None => entry is None && final(self)@ == old(self)@,
            },
    {
        proof {
            use_type_invariant(&*self);
        }
        let rest: &'a [u8] = &self.bytes[self.offset..self.bytes.len()];
        assert(rest@ =~= self@);

        if rest.len() < HEADER_LEN {
            return None;
        }
        let text_len: usize = rest[0] as usize + 256 * (rest[1] as usize);
        let level = match Level::from_byte(rest[2]) {
            Some(level) => level,
            None => return None,
        };
        if rest.len() - HEADER_LEN < text_len {
            return None;
        }
        let end: usize = HEADER_LEN + text_len;
        let text = match str_from_utf8(&rest[HEADER_LEN..end]) {
            Some(text) => text,
            None => return None,
        };
        proof {
            vstd::utf8::encode_utf8_decode_utf8(text@);
        }
        self.offset = self.offset + end;
        assert(self@ =~= rest@.skip(end as int));
        Some((level, text))
    }

    /// Every record that is left.
    pub fn collect(self) -> (entries: Vec<(Level, &'a str)>)
        ensures
            records_of(entries@) == replayed(self@),
    {
        let mut cursor = self;
        let mut entries: Vec<(Level, &'a str)> = Vec::new();
        loop
            invariant
                records_of(entries@) + replayed(cursor@) == replayed(self@),
            ensures
                records_of(entries@) == replayed(self@),
            decreases cursor@.len(),
        {
            match cursor.next() {
                Some(entry) => {
                    entries.push(entry);
                },
                None => {
                    break;
                },
            }
        }
        entries
    }

    /// How many records are left.
    pub fn count(self) -> (count: usize)
        ensures
            count == replayed(self@).len(),
    {
        self.collect().len()
    }
}

proof fn lemma_encoded_len(records: Seq<Record>)
    ensures
        encoded(records).len() >= HEADER_LEN * records.len(),
        forall|i: int|
            0 <= i < records.len() ==> HEADER_LEN + vstd::utf8::encode_utf8(
                (#[trigger] records[i]).1,
            ).len() <= encoded(records).len(),
    decreases records.len(),
{
    if records.len() > 0 {
        let rest = records.drop_last();
        lemma_encoded_len(rest);
        assert forall|i: int| 0 <= i < records.len() implies HEADER_LEN
            + vstd::utf8::encode_utf8((#[trigger] records[i]).1).len() <= encoded(
            records,
        ).len() by {
            if i < rest.len() {
                assert(rest[i] == records[i]);
            }
        }
    }
}

proof fn lemma_encoded_front(records: Seq<Record>)
    requires
        records.len() > 0,
    ensures
        encoded(records) == frame(records[0]) + encoded(records.drop_first()),
    decreases records.len(),
{
    let rest = records.drop_last();
    if rest.len() == 0 {
        assert(records.drop_first() =~= Seq::empty());
        assert(rest =~= Seq::empty());
    } else {
        lemma_encoded_front(rest);
        assert(records.drop_first().drop_last() =~= rest.drop_first());
        assert(encoded(records) =~= frame(records[0]) + encoded(records.drop_first()));
    }
}

/// Reading the frames of a run of records gives back the same records, with
/// their levels, in the order in which they were written.
pub proof fn law_replay_gives_back_what_was_recorded(records: Seq<Record>)
    requires
        forall|i: int| 0 <= i < records.len() ==> has_exact_length(#[trigger] records[i]),
    ensures
        replayed(encoded(records)) == records,
    decreases records.len(),
{
    if records.len() > 0 {
        let rest = records.drop_first();
        let bytes = encoded(records);
        let text = vstd::utf8::encode_utf8(records[0].1);
        assert forall|i: int| 0 <= i < rest.len() implies has_exact_length(#[trigger] rest[i]) by {
            assert(rest[i] == records[i + 1]);
        }
        law_replay_gives_back_what_was_recorded(rest);
        lemma_encoded_front(records);
        assert(has_exact_length(records[0]));
        assert(bytes.subrange(HEADER_LEN as int, HEADER_LEN + text.len()) =~= text);
        vstd::utf8::encode_utf8_valid_utf8(records[0].1);
        vstd::utf8::encode_utf8_decode_utf8(records[0].1);
        assert(bytes.skip((HEADER_LEN + text.len()) as int) =~= encoded(rest));
        assert(replayed(bytes) =~= records);
    }
}

/// A buffer that is too small to hold a text beyond the length field's range
/// always replays exactly the records it kept.
pub proof fn law_small_buffers_replay_everything<const N: usize>(buffer: LogBuffer<N>)
    requires
        buffer.well_formed(),
        N <= HEADER_LEN + u16::MAX,
    ensures
        replayed(encoded(buffer@.records)) == buffer@.records,
{
    let records = buffer@.records;
    lemma_encoded_len(records);
    assert(encoded(records).len() == buffer.used.len);
    assert forall|i: int| 0 <= i < records.len() implies has_exact_length(
        #[trigger] records[i],
    ) by {}
    law_replay_gives_back_what_was_recorded(records);
}

/// A level is told from its byte, and no other byte stands for it.
pub proof fn law_levels_survive_their_byte(level: Level, byte: u8)
    ensures
        Level::of_byte(level.byte()) == Some(level),
        Level::of_byte(byte) == Some(level) ==> byte == level.byte(),
{
}

/// A record is dropped whole: it leaves nothing behind but the count, and what
/// is recorded next is kept or dropped as if it had never been offered.
pub proof fn law_a_dropped_record_leaves_no_trace(
    journal: Journal,
    dropped: Record,
    next: Record,
    capacity: nat,
)
    requires
        !journal.fits(dropped.1, capacity),
    ensures
        ({
            let after = journal.offered(dropped.0, dropped.1, capacity);
            &&& after.records == journal.records
            &&& after.dropped == journal.dropped + 1
            &&& after.offered(next.0, next.1, capacity).records == journal.offered(
                next.0,
                next.1,
                capacity,
            ).records
        }),
{
}

/// Every record offered is accounted for, kept or counted, and none that was
/// kept before is lost or moved.
pub proof fn law_every_record_is_accounted_for(
    journal: Journal,
    level: Level,
    text: Seq<char>,
    capacity: nat,
)
    ensures
        ({
            let after = journal.offered(level, text, capacity);
            &&& after.records.len() + after.dropped == journal.records.len() + journal.dropped + 1
            &&& journal.records.is_prefix_of(after.records)
        }),
{
}

/// The frames of the records never take more than the capacity.
pub proof fn law_records_stay_within_the_capacity<const N: usize>(buffer: LogBuffer<N>)
    requires
        buffer.well_formed(),
    ensures
        encoded(buffer@.records).len() <= N,
{
}

/// The journal after a run of records was offered to it, in order.
pub open spec fn offered_all(journal: Journal, offers: Seq<Record>, capacity: nat) -> Journal
    decreases offers.len(),
{
    if offers.len() == 0 {
        journal
    } else {
        offered_all(journal, offers.drop_last(), capacity).offered(
            offers.last().0,
            offers.last().1,
            capacity,
        )
    }
}

/// Records that fit into the buffer together are all kept, and replay in the
/// order in which they were offered, each with its level.
pub proof fn law_what_fits_is_replayed_in_order(offers: Seq<Record>, capacity: nat)
    requires
        encoded(offers).len() <= capacity,
        forall|i: int| 0 <= i < offers.len() ==> has_exact_length(#[trigger] offers[i]),
    ensures
        ({
            let journal = offered_all(Journal::empty(), offers, capacity);
            &&& journal == (Journal { records: offers, dropped: 0 })
            &&& replayed(encoded(journal.records)) == offers
        }),
    decreases offers.len(),
{
    law_replay_gives_back_what_was_recorded(offers);
    if offers.len() > 0 {
        let first = offers.drop_last();
        assert forall|i: int| 0 <= i < first.len() implies has_exact_length(
            #[trigger] first[i],
        ) by {
            assert(first[i] == offers[i]);
        }
        law_what_fits_is_replayed_in_order(first, capacity);
        assert(first.push(offers.last()) =~= offers);
    } else {
        assert(offers =~= Seq::empty());
    }
}

/// The level byte of a frame is zero for information and one for a warning, and
/// any other byte is no level.
pub proof fn law_levels_are_zero_and_one(level: Level, byte: u8, other: u8, read: Option<Level>)
    requires
        call_ensures(Level::to_byte, (level,), byte),
        call_ensures(Level::from_byte, (other,), read),
    ensures
        byte == if level is Info {
            0u8
        } else {
            1u8
        },
        other > 1 <==> read is None,
        read == Some(level) <==> other == byte,
{
}

/// A frame takes three bytes more than the text. It starts with the length of
/// the text modulo 65536, low byte first, and the level, and ends with the text.
pub proof fn law_frames_hold_length_level_and_text(record: Record)
    ensures
        ({
            let bytes = frame(record);
            let text = vstd::utf8::encode_utf8(record.1);
            &&& bytes.len() == 3 + text.len()
            &&& (text.len() - (bytes[0] + bytes[1] * 256)) % 0x1_0000 == 0
            &&& bytes[2] == if record.0 is Info {
                0u8
            } else {
                1u8
            }
            &&& bytes.skip(3) == text
        }),
{
    let text = vstd::utf8::encode_utf8(record.1);
    assert(frame(record).skip(3) =~= text);
}

/// Frames stand one behind the other, without anything before, between or
/// behind them.
pub proof fn law_frames_stand_in_a_row(earlier: Seq<Record>, record: Record, later: Seq<Record>)
    ensures
        encoded(Seq::empty()) == Seq::<u8>::empty(),
        encoded(seq![record]) == frame(record),
        encoded(earlier + later) == encoded(earlier) + encoded(later),
    decreases later.len(),
{
    assert(seq![record].drop_last() =~= Seq::<Record>::empty());
    assert(encoded(seq![record].drop_last()) =~= Seq::<u8>::empty());
    assert(encoded(seq![record]) =~= frame(record));
    if later.len() == 0 {
        assert(earlier + later =~= earlier);
        assert(encoded(earlier) + encoded(later) =~= encoded(earlier));
    } else {
        law_frames_stand_in_a_row(earlier, record, later.drop_last());
        assert((earlier + later).drop_last() =~= earlier + later.drop_last());
        assert(encoded(earlier + later) =~= encoded(earlier) + encoded(later));
    }
}

proof fn lemma_first_record_is_a_frame(bytes: Seq<u8>)
    ensures
        first_record(bytes) matches Some((record, end)) ==> {
            &&& vstd::utf8::encode_utf8(record.1).len() <= 0xFFFF
            &&& end == frame(record).len()
            &&& bytes == frame(record) + bytes.skip(end as int)
        },
{
    if let Some((record, end)) = first_record(bytes) {
        let text = bytes.subrange(HEADER_LEN as int, end as int);
        vstd::utf8::decode_utf8_encode_utf8(text);
        assert(bytes =~= frame(record) + bytes.skip(end as int));
    }
}

proof fn lemma_a_frame_is_the_first_record(record: Record, rest: Seq<u8>)
    requires
        vstd::utf8::encode_utf8(record.1).len() <= 0xFFFF,
    ensures
        first_record(frame(record) + rest) == Some((record, frame(record).len())),
{
    let bytes = frame(record) + rest;
    let text = vstd::utf8::encode_utf8(record.1);
    assert(bytes.subrange(HEADER_LEN as int, HEADER_LEN + text.len()) =~= text);
    vstd::utf8::encode_utf8_valid_utf8(record.1);
    vstd::utf8::encode_utf8_decode_utf8(record.1);
}

/// Bytes that start with the frame of a record, of at most 65535 bytes of text,
/// replay as that record and then as the bytes behind it do. Bytes that start
/// with no such frame replay as nothing.
pub proof fn law_replay_takes_one_frame_at_a_time(bytes: Seq<u8>, record: Record)
    ensures
        vstd::utf8::encode_utf8(record.1).len() <= 0xFFFF ==> replayed(frame(record) + bytes)
            == seq![record] + replayed(bytes),
        replayed(bytes).len() == 0 <==> forall|first: Record|
            vstd::utf8::encode_utf8(first.1).len() <= 0xFFFF ==> !(#[trigger] frame(
                first,
            )).is_prefix_of(bytes),
{
    if vstd::utf8::encode_utf8(record.1).len() <= 0xFFFF {
        lemma_a_frame_is_the_first_record(record, bytes);
        assert((frame(record) + bytes).skip(frame(record).len() as int) =~= bytes);
    }
    lemma_first_record_is_a_frame(bytes);
    if replayed(bytes).len() == 0 {
        assert forall|first: Record|
            vstd::utf8::encode_utf8(first.1).len() <= 0xFFFF implies !(#[trigger] frame(
            first,
        )).is_prefix_of(bytes) by {
            if frame(first).is_prefix_of(bytes) {
                let rest = bytes.skip(frame(first).len() as int);
                assert(bytes =~= frame(first) + rest);
                lemma_a_frame_is_the_first_record(first, rest);
            }
        }
    } else {
        let first = (first_record(bytes)->0).0;
        assert(frame(first).is_prefix_of(bytes));
    }
}

/// The cursor hands out a record exactly when the bytes left to it start with
/// the frame of one, of at most 65535 bytes of text, and moves behind that
/// frame. Otherwise it stays where it is.
pub proof fn law_the_cursor_moves_from_frame_to_frame<'a>(
    cursor: &mut Entries<'a>,
    entry: Option<(Level, &'a str)>,
)
    requires
        call_ensures(Entries::<'a>::next, (cursor,), entry),
    ensures
        match entry {
            Some((level, text)) => {
                &&& vstd::utf8::encode_utf8(text@).len() <= 0xFFFF
                &&& old(cursor)@ == frame((level, text@)) + final(cursor)@
            },
            None => {
                &&& final(cursor)@ == old(cursor)@
                &&& forall|first: Record|
                    vstd::utf8::encode_utf8(first.1).len() <= 0xFFFF ==> !(#[trigger] frame(
                        first,
                    )).is_prefix_of(old(cursor)@)
            },
        },
{
    let bytes = old(cursor)@;
    lemma_first_record_is_a_frame(bytes);
    if entry is None {
        law_replay_takes_one_frame_at_a_time(bytes, (Level::Info, Seq::empty()));
    }
}

/// What the cursor gives all at once is what is left to replay, one for one and
/// in order, and the count is the number of them.
pub proof fn law_nothing_is_lost_on_the_way_out<'a>(
    cursor: Entries<'a>,
    entries: Vec<(Level, &'a str)>,
    count: usize,
)
    requires
        call_ensures(Entries::<'a>::collect, (cursor,), entries),
        call_ensures(Entries::<'a>::count, (cursor,), count),
    ensures
        count == entries@.len() == replayed(cursor@).len(),
        forall|i: int|
            0 <= i < entries@.len() ==> {
                &&& #[trigger] entries@[i].0 == replayed(cursor@)[i].0
                &&& entries@[i].1@ == replayed(cursor@)[i].1
            },
{
    let records = records_of(entries@);
    assert forall|i: int| 0 <= i < entries@.len() implies {
        &&& #[trigger] entries@[i].0 == replayed(cursor@)[i].0
        &&& entries@[i].1@ == replayed(cursor@)[i].1
    } by {
        assert(records[i] == (entries@[i].0, entries@[i].1@));
    }
}

/// A buffer gives out exactly the records it kept, each with its level and text,
/// oldest first, if none of their texts is longer than 65535 bytes, as in every
/// buffer of at most 65538 bytes. In any case its cursor starts at the first of
/// their frames.
pub proof fn law_what_was_kept_comes_out<'a, const N: usize>(
    buffer: &'a LogBuffer<N>,
    cursor: Entries<'a>,
    entries: Vec<(Level, &'a str)>,
)
    requires
        call_ensures(LogBuffer::<N>::entries, (buffer,), cursor),
        call_ensures(Entries::<'a>::collect, (cursor,), entries),
    ensures
        cursor@ == encoded(buffer@.records),
        N <= 65538 || (forall|i: int|
            0 <= i < buffer@.records.len() ==> vstd::utf8::encode_utf8(
                (#[trigger] buffer@.records[i]).1,
            ).len() <= 0xFFFF) ==> {
            &&& entries@.len() == buffer@.records.len()
            &&& forall|i: int|
                0 <= i < entries@.len() ==> {
                    &&& #[trigger] entries@[i].0 == buffer@.records[i].0
                    &&& entries@[i].1@ == buffer@.records[i].1
                }
        },
{
    let records = records_of(entries@);
    assert(records.len() == entries@.len());
    assert forall|i: int| 0 <= i < entries@.len() implies {
        &&& #[trigger] entries@[i].0 == records[i].0
        &&& entries@[i].1@ == records[i].1
    } by {
        assert(records[i] == (entries@[i].0, entries@[i].1@));
    }
}

/// A buffer is empty exactly when its cursor has no byte to read.
pub proof fn law_an_empty_buffer_has_nothing_to_read<'a, const N: usize>(
    buffer: &'a LogBuffer<N>,
    cursor: Entries<'a>,
    empty: bool,
)
    requires
        call_ensures(LogBuffer::<N>::entries, (buffer,), cursor),
        call_ensures(LogBuffer::<N>::is_empty, (buffer,), empty),
    ensures
        empty <==> cursor@.len() == 0,
{
    lemma_encoded_len(buffer@.records);
}

/// Pieces are joined without anything before, between or behind them.
pub proof fn law_pieces_stand_in_a_row(earlier: Seq<&str>, piece: &str, later: Seq<&str>)
    ensures
        joined(Seq::empty()) == Seq::<char>::empty(),
        joined(seq![piece]) == piece@,
        joined(earlier + later) == joined(earlier) + joined(later),
    decreases later.len(),
{
    assert(seq![piece].drop_last() =~= Seq::<&str>::empty());
    assert(joined(seq![piece].drop_last()) =~= Seq::<char>::empty());
    assert(joined(seq![piece]) =~= piece@);
    if later.len() == 0 {
        assert(earlier + later =~= earlier);
        assert(joined(earlier) + joined(later) =~= joined(earlier));
    } else {
        law_pieces_stand_in_a_row(earlier, piece, later.drop_last());
        assert((earlier + later).drop_last() =~= earlier + later.drop_last());
        assert(joined(earlier + later) =~= joined(earlier) + joined(later));
    }
}

/// A record is kept, as the newest and with nothing else changed, exactly when
/// its frame fits into the buffer behind those of the records before it.
/// Otherwise it is counted, and nothing else changes.
pub proof fn law_what_fits_is_kept<const N: usize>(
    buffer: &mut LogBuffer<N>,
    level: Level,
    text: &str,
)
    requires
        call_ensures(LogBuffer::<N>::record, (buffer, level, text), ()),
    ensures
        encoded(old(buffer)@.records).len() + frame((level, text@)).len() <= N ==> {
            &&& final(buffer)@.records == old(buffer)@.records.push((level, text@))
            &&& final(buffer)@.dropped == old(buffer)@.dropped
        },
        encoded(old(buffer)@.records).len() + frame((level, text@)).len() > N ==> {
            &&& final(buffer)@.records == old(buffer)@.records
            &&& final(buffer)@.dropped == old(buffer)@.dropped + 1
        },
{
}

/// A record that comes in pieces is kept or counted as one with their text.
pub proof fn law_pieces_are_one_record<const N: usize>(
    buffer: &mut LogBuffer<N>,
    level: Level,
    pieces: &[&str],
)
    requires
        call_ensures(LogBuffer::<N>::record_pieces, (buffer, level, pieces), ()),
    ensures
        encoded(old(buffer)@.records).len() + frame((level, joined(pieces@))).len() <= N ==> {
            &&& final(buffer)@.records == old(buffer)@.records.push((level, joined(pieces@)))
            &&& final(buffer)@.dropped == old(buffer)@.dropped
        },
        encoded(old(buffer)@.records).len() + frame((level, joined(pieces@))).len() > N ==> {
            &&& final(buffer)@.records == old(buffer)@.records
            &&& final(buffer)@.dropped == old(buffer)@.dropped + 1
        },
{
}

/// Information and warnings are kept or counted alike, and differ in the level
/// that they are kept with.
pub proof fn law_information_and_warnings_differ_in_level<const N: usize>(
    informed: &mut LogBuffer<N>,
    warned: &mut LogBuffer<N>,
    text: &str,
)
    requires
        old(informed)@ == old(warned)@,
        call_ensures(LogBuffer::<N>::info, (informed, text), ()),
        call_ensures(LogBuffer::<N>::warn, (warned, text), ()),
    ensures
        final(informed)@.dropped == final(warned)@.dropped,
        encoded(old(informed)@.records).len() + frame((Level::Info, text@)).len() <= N ==> {
            &&& final(informed)@.records == old(informed)@.records.push((Level::Info, text@))
            &&& final(warned)@.records == old(warned)@.records.push((Level::Warn, text@))
            &&& final(warned)@.dropped == old(warned)@.dropped
        },
        encoded(old(informed)@.records).len() + frame((Level::Info, text@)).len() > N ==> {
            &&& final(informed)@.records == old(informed)@.records
            &&& final(warned)@.records == old(warned)@.records
            &&& final(warned)@.dropped == old(warned)@.dropped + 1
        },
{
}

/// A cleared buffer is like a new one: it holds no record and has dropped none.
pub proof fn law_clearing_starts_over<const N: usize>(
    buffer: &mut LogBuffer<N>,
    fresh: LogBuffer<N>,
    default: LogBuffer<N>,
    dropped: usize,
)
    requires
        call_ensures(LogBuffer::<N>::clear, (buffer,), ()),
        call_ensures(LogBuffer::<N>::new, (), fresh),
        call_ensures(LogBuffer::<N>::default, (), default),
        call_ensures(LogBuffer::<N>::dropped, (&fresh,), dropped),
    ensures
        final(buffer)@ == fresh@,
        default@ == fresh@,
        fresh@.records.len() == 0,
        dropped == 0,
{
}

} // verus!
