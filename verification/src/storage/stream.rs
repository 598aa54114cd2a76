//! Replaying a log as it is read, one record at a time, so that no more than
//! one record is ever held.
use vstd::prelude::*;

use crate::bytes::le_value;
use crate::error::{Error, ErrorV};
use crate::storage::engine::InMemoryStorage;
use crate::storage::log::{
    after_entries, checked_record, finish_record, read_header, record_at, replay_from, EntryV,
    HeaderRead, RecordV, StreamRecordRead,
};
use crate::storage::model::StoreV;

verus! {

/// A replay in progress. Ask [`Replay::wants_header`]; while it says so, read
/// the eight bytes of the next header and hand them in, then the payload that
/// the header announces.
pub struct Replay {
    pub store: InMemoryStorage,
    /// Where the next record begins.
    pub pos: u64,
    /// How long the log is.
    pub file_len: u64,
    /// Whether a torn tail has been met.
    pub torn: bool,
}

/// What is left to replay of a log.
pub open spec fn left_of(file: Seq<u8>, pos: int, torn: bool) -> Result<(Seq<EntryV>, int), ErrorV> {
    if torn {
        Ok((Seq::empty(), pos))
    } else {
        replay_from(file, pos)
    }
}

/// Whether a record with this header and payload stands at `pos` in `file`.
pub open spec fn at_record(file: Seq<u8>, pos: int, len: u32, crc: u32, payload: Seq<u8>) -> bool {
    &&& pos + 8 + len <= file.len()
    &&& le_value(file.subrange(pos, pos + 4)) == len
    &&& le_value(file.subrange(pos + 4, pos + 8)) == crc
    &&& file.subrange(pos + 8, pos + 8 + len) == payload
}

impl Replay {
    /// Whether the store is in good order.
    pub open spec fn wf(&self) -> bool {
        self.store.ok() && self.pos <= self.file_len
    }

    /// Whether these are the entries of `file` so far: the store holds what
    /// they make, and the rest of the log is still to come.
    pub open spec fn has_read(&self, file: Seq<u8>, es: Seq<EntryV>) -> bool {
        &&& self.file_len == file.len()
        &&& self.store.content() == StoreV::empty().apply_all(es)
        &&& replay_from(file, 0) == after_entries(es, left_of(file, self.pos as int, self.torn))
    }

    /// Whether the replay is that of `file`.
    pub open spec fn tracks(&self, file: Seq<u8>) -> bool {
        exists|es: Seq<EntryV>| #[trigger] self.has_read(file, es)
    }

    /// The replay of a log of so many bytes, at its beginning.
    pub fn new(file_len: u64) -> (r: Self)
        ensures
            r.wf(),
            r.pos == 0,
            forall|file: Seq<u8>| file.len() == file_len ==> #[trigger] r.tracks(file),
    {
        let r = Replay { store: InMemoryStorage::new(), pos: 0, file_len, torn: false };
        proof {
            assert forall|file: Seq<u8>| file.len() == file_len implies #[trigger] r.tracks(file) by {
                let none = Seq::<EntryV>::empty();
                match replay_from(file, 0) {
                    Ok((rest, _)) => assert(none + rest =~= rest),
                    Err(_) => {},
                }
                assert(r.has_read(file, none));
            }
        }
        r
    }

    /// Whether another header is to be read.
    pub fn wants_header(&self) -> (r: bool)
        requires
            self.wf(),
        ensures
            r == (!self.torn && self.pos + 8 <= self.file_len),
    {
        !self.torn && self.file_len - self.pos >= 8
    }

    /// Hand in the header at the place reached: the length and the checksum of
    /// the payload to read, unless the header runs past the end of the log.
    pub fn header(&mut self, header: &[u8]) -> (r: Option<(u32, u32)>)
        requires
            old(self).wf(),
            !old(self).torn,
            old(self).pos + 8 <= old(self).file_len,
            header@.len() == 8,
        ensures
            final(self).wf(),
            final(self).file_len == old(self).file_len,
            final(self).pos == old(self).pos,
            match r {
                Some((len, crc)) => {
                    &&& *final(self) == *old(self)
                    &&& len == le_value(header@.subrange(0, 4))
                    &&& crc == le_value(header@.subrange(4, 8))
                    &&& old(self).pos + 8 + len <= old(self).file_len
                },
                None => final(self).torn && old(self).pos + 8 + le_value(header@.subrange(0, 4))
                    > old(self).file_len,
            },
            forall|file: Seq<u8>|
                old(self).tracks(file) && header@ == file.subrange(
                    old(self).pos as int,
                    old(self).pos + 8,
                ) ==> #[trigger] final(self).tracks(file),
    {
        match read_header(header, self.pos, self.file_len) {
            HeaderRead::Payload { len, crc, end: _ } => Some((len, crc)),
            HeaderRead::TornTail => {
                self.torn = true;
                proof {
                    assert forall|file: Seq<u8>|
                        old(self).tracks(file) && header@ == file.subrange(
                            old(self).pos as int,
                            old(self).pos + 8,
                        ) implies #[trigger] self.tracks(file) by {
                        let es = choose|es: Seq<EntryV>| #[trigger] old(self).has_read(file, es);
                        let pos = old(self).pos as int;
                        assert(file.subrange(pos, pos + 4) =~= header@.subrange(0, 4));
                        assert(record_at(file, pos) == Ok::<RecordV, ErrorV>(RecordV::Torn));
                        assert(self.has_read(file, es));
                    }
                }
                None
            },
        }
    }

    /// Hand in the payload that a header announced. A failure means that the
    /// log is damaged.
    pub fn payload(&mut self, len: u32, crc: u32, payload: &[u8]) -> (r: Result<(), Error>)
        requires
            old(self).wf(),
            !old(self).torn,
            payload@.len() == len,
            old(self).pos + 8 + len <= old(self).file_len,
        ensures
            final(self).wf(),
            final(self).file_len == old(self).file_len,
            match checked_record(
                len as nat,
                crc as nat,
                payload@,
                old(self).pos + 8 + len,
                old(self).file_len as int,
            ) {
                Ok(RecordV::Whole { entry, next }) => {
                    &&& r is Ok
                    &&& final(self).pos == next
                    &&& !final(self).torn
                    &&& final(self).store.content() == old(self).store.content().apply(entry)
                },
                Ok(RecordV::Torn) => r is Ok && final(self).torn && final(self).pos == old(self).pos
                    && final(self).store == old(self).store,
                Err(e) => r matches Err(x) && x@ == e && *final(self) == *old(self),
            },
            forall|file: Seq<u8>|
                old(self).tracks(file) && at_record(file, old(self).pos as int, len, crc, payload@)
                    ==> match r {
                    Ok(_) => #[trigger] final(self).tracks(file),
                    Err(e) => replay_from(file, 0) == Err::<(Seq<EntryV>, int), ErrorV>(e@),
                },
    {
        let end: u64 = self.pos + 8 + len as u64;
        let ghost pos = self.pos as int;
        let outcome = finish_record(len, crc, payload, end, self.file_len);
        proof {
            assert forall|file: Seq<u8>|
                old(self).tracks(file) && at_record(file, pos, len, crc, payload@)
                implies record_at(file, pos) == #[trigger] checked_record(
                len as nat,
                crc as nat,
                payload@,
                end as int,
                file.len() as int,
            ) by {}
        }
        match outcome {
            Ok(StreamRecordRead::TornTail) => {
                self.torn = true;
                proof {
                    assert forall|file: Seq<u8>|
                        old(self).tracks(file) && at_record(file, pos, len, crc, payload@)
                        implies #[trigger] self.tracks(file) by {
                        let es = choose|es: Seq<EntryV>| #[trigger] old(self).has_read(file, es);
                        assert(record_at(file, pos) == Ok::<RecordV, ErrorV>(RecordV::Torn));
                        assert(self.has_read(file, es));
                    }
                }
                Ok(())
            },
            Ok(StreamRecordRead::Record { entry, next_pos }) => {
                let ghost e = entry@;
                self.store.apply_entry(entry);
                self.pos = next_pos;
                proof {
                    assert forall|file: Seq<u8>|
                        old(self).tracks(file) && at_record(file, pos, len, crc, payload@)
                        implies #[trigger] self.tracks(file) by {
                        let es = choose|es: Seq<EntryV>| #[trigger] old(self).has_read(file, es);
                        let rest = replay_from(file, next_pos as int);
                        assert(record_at(file, pos) == Ok::<RecordV, ErrorV>(
                            RecordV::Whole { entry: e, next: next_pos as int },
                        ));
                        assert(replay_from(file, pos) == after_entries(seq![e], rest));
                        match rest {
                            Ok((more, _)) => assert(es + (seq![e] + more) =~= es.push(e) + more),
                            Err(_) => {},
                        }
                        assert(es.push(e).drop_last() =~= es);
                        assert(self.has_read(file, es.push(e)));
                    }
                }
                Ok(())
            },
            Err(x) => {
                proof {
                    assert forall|file: Seq<u8>|
                        old(self).tracks(file) && at_record(file, pos, len, crc, payload@)
                        implies replay_from(file, 0) == Err::<(Seq<EntryV>, int), ErrorV>(x@) by {
                        let es = choose|es: Seq<EntryV>| #[trigger] old(self).has_read(file, es);
                        assert(record_at(file, pos) == Err::<RecordV, ErrorV>(x@));
                    }
                }
                Err(x)
            },
        }
    }

    /// The store that the log describes, and the length up to which the log is
    /// good, once no header is wanted any more.
    pub fn finish(self) -> (r: (InMemoryStorage, u64))
        requires
            self.wf(),
            self.torn || self.pos + 8 > self.file_len,
        ensures
            r.0.ok(),
            r == (self.store, self.pos),
            forall|file: Seq<u8>| #[trigger]
                self.tracks(file) ==> (replay_from(file, 0) matches Ok((es, good)) && good == r.1
                    && r.0.content() == StoreV::empty().apply_all(es)),
    {
        proof {
            assert forall|file: Seq<u8>| #[trigger] self.tracks(file) implies (replay_from(
                file,
                0,
            ) matches Ok((es, good)) && good == self.pos && self.store.content()
                == StoreV::empty().apply_all(es)) by {
                let es = choose|es: Seq<EntryV>| #[trigger] self.has_read(file, es);
                assert(left_of(file, self.pos as int, self.torn) == Ok::<
                    (Seq<EntryV>, int),
                    ErrorV,
                >((Seq::empty(), self.pos as int)));
                assert(es + Seq::<EntryV>::empty() =~= es);
            }
        }
        (self.store, self.pos)
    }
}

} // verus!
