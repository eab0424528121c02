//! A collaboratively edited document: its text, the CRDT replica kept in step
//! with it, and the numbered history of the edits made to it.

use vstd::prelude::*;
use vstd::utf8::decode_utf8;
use crate::text::{boundary, byte_len, splice, string_insert_str, string_replace_range, utf8};
use crate::crdt::{
    after_unit, deletion_bounds, deletion_by, fresh_chars, insertion_anchor, insertion_text,
    replica_chars, replica_deleted, replica_fork, replica_id, replica_inserted, replica_new,
    replica_version,
};

verus! {

broadcast use vstd::utf8::group_utf8_lib;

/// One edit recorded in a document's history.
pub enum Action {
    Insertion { pos: usize, text: String, timestamp: u64 },
    Deletion { range_start: usize, range_end: usize, timestamp: u64 },
}

/// The mathematical value of an [`Action`].
pub enum ActionView {
    Insertion { pos: nat, text: Seq<char>, timestamp: nat },
    Deletion { range_start: nat, range_end: nat, timestamp: nat },
}

impl ActionView {
    pub open spec fn timestamp(self) -> nat {
        match self {
            ActionView::Insertion { timestamp, .. } => timestamp,
            ActionView::Deletion { timestamp, .. } => timestamp,
        }
    }
}

impl View for Action {
    type V = ActionView;

    open spec fn view(&self) -> ActionView {
        match self {
            Action::Insertion { pos, text, timestamp } => ActionView::Insertion {
                pos: *pos as nat,
                text: text@,
                timestamp: *timestamp as nat,
            },
            Action::Deletion { range_start, range_end, timestamp } => ActionView::Deletion {
                range_start: *range_start as nat,
                range_end: *range_end as nat,
                timestamp: *timestamp as nat,
            },
        }
    }
}

impl Action {
    /// The timestamp of the action.
    pub fn timestamp(&self) -> (t: u64)
        ensures
            t == self@.timestamp(),
    {
        match self {
            Action::Insertion { timestamp, .. } => *timestamp,
            Action::Deletion { timestamp, .. } => *timestamp,
        }
    }
}

impl Clone for Action {
    fn clone(&self) -> (r: Self)
        ensures
            r == *self,
    {
        match self {
            Action::Insertion { pos, text, timestamp } => Action::Insertion {
                pos: *pos,
                text: text.clone(),
                timestamp: *timestamp,
            },
            Action::Deletion { range_start, range_end, timestamp } => Action::Deletion {
                range_start: *range_start,
                range_end: *range_end,
                timestamp: *timestamp,
            },
        }
    }
}

/// The views of a sequence of actions.
pub open spec fn actions_view(s: Seq<Action>) -> Seq<ActionView> {
    s.map_values(|a: Action| a@)
}

/// Whether an action is newer than the given timestamp.
pub open spec fn newer_than(last_timestamp: nat) -> spec_fn(ActionView) -> bool {
    |a: ActionView| a.timestamp() > last_timestamp
}

/// The source of replica identifiers for forked documents: a counter that
/// starts at 1, so that no identifier it hands out is zero.
pub struct ReplicaIds {
    next: u64,
}

impl ReplicaIds {
    #[verifier::type_invariant]
    spec fn never_zero(self) -> bool {
        self.next >= 1
    }

    /// The identifier that the next call of [`ReplicaIds::take`] returns.
    pub closed spec fn next_id(self) -> u64 {
        self.next
    }

    pub fn new() -> (r: Self)
        ensures
            r.next_id() == 1,
    {
        ReplicaIds { next: 1 }
    }

    /// The identifier that the next call of [`ReplicaIds::take`] returns.
    pub fn peek(&self) -> (id: u64)
        ensures
            id == self.next_id(),
    {
        self.next
    }

    /// Hands out the next identifier.
    pub fn take(&mut self) -> (id: u64)
        requires
            old(self).next_id() < u64::MAX,
        ensures
            id == old(self).next_id(),
            id != 0,
            final(self).next_id() == old(self).next_id() + 1,
    {
        proof { use_type_invariant(&*self); }
        let id = self.next;
        self.next = self.next + 1;
        id
    }
}

/// The mathematical value of a [`Document`].
///
/// `units` are the CRDT identities of the text's bytes, in order (the byte at
/// index `i` has identity `units[i]`), and `version` is the offset the next
/// byte inserted here will get.
pub struct DocumentView {
    pub text: Seq<char>,
    pub replica_id: u64,
    pub history: Seq<ActionView>,
    pub timestamp: nat,
    pub units: Seq<(u64, nat)>,
    pub version: nat,
}

/// The document once `t` was inserted at byte position `pos`.
pub open spec fn after_insert(d: DocumentView, pos: nat, t: Seq<char>) -> DocumentView {
    DocumentView {
        text: decode_utf8(splice(utf8(d.text), pos as int, pos as int, utf8(t))),
        replica_id: d.replica_id,
        history: d.history.push(
            ActionView::Insertion { pos, text: t, timestamp: d.timestamp + 1 },
        ),
        timestamp: d.timestamp + 1,
        units: d.units.take(pos as int) + fresh_chars(d.replica_id, d.version, utf8(t).len())
            + d.units.skip(pos as int),
        version: d.version + utf8(t).len(),
    }
}

/// The document once the bytes `start..end` were deleted.
pub open spec fn after_delete(d: DocumentView, start: nat, end: nat) -> DocumentView {
    DocumentView {
        text: decode_utf8(splice(utf8(d.text), start as int, end as int, Seq::empty())),
        replica_id: d.replica_id,
        history: d.history.push(
            ActionView::Deletion { range_start: start, range_end: end, timestamp: d.timestamp + 1 },
        ),
        timestamp: d.timestamp + 1,
        units: d.units.take(start as int) + d.units.skip(end as int),
        version: d.version,
    }
}

/// The result of an insertion: the inserted text and the CRDT edit to share.
pub struct TextInsertion {
    pub text: String,
    pub crdt: cola::Insertion,
}

/// A text buffer with its CRDT replica and its numbered edit history.
pub struct Document {
    buffer: String,
    crdt: cola::Replica,
    replica_id: u64,
    history: Vec<Action>,
    current_timestamp: u64,
}

impl View for Document {
    type V = DocumentView;

    closed spec fn view(&self) -> DocumentView {
        DocumentView {
            text: self.buffer@,
            replica_id: self.replica_id,
            history: actions_view(self.history@),
            timestamp: self.current_timestamp as nat,
            units: replica_chars(self.crdt),
            version: replica_version(self.crdt),
        }
    }
}

impl Document {
    /// The internal consistency of a document: the replica holds one identity
    /// per byte of the buffer, under the document's identifier, and the history
    /// holds one action per timestamp, numbered from 1.
    pub closed spec fn wf(&self) -> bool {
        &&& replica_chars(self.crdt).len() == utf8(self.buffer@).len()
        &&& replica_id(self.crdt) == self.replica_id
        &&& self.replica_id != 0
        &&& self.current_timestamp == self.history@.len()
        &&& forall|i: int|
            0 <= i < self.history@.len() ==> (#[trigger] self.history@[i])@.timestamp() == i + 1
    }

    /// What every well-formed document satisfies, in terms of its view.
    pub proof fn lemma_wf(&self)
        requires
            self.wf(),
        ensures
            self@.replica_id != 0,
            self@.timestamp == self@.history.len(),
            self@.units.len() == utf8(self@.text).len(),
            forall|i: int|
                0 <= i < self@.history.len() ==> (#[trigger] self@.history[i]).timestamp() == i
                    + 1,
    {
        assert forall|i: int| 0 <= i < self@.history.len() implies (
        #[trigger] self@.history[i]).timestamp() == i + 1 by {
            assert(self@.history[i] == self.history@[i]@);
        }
    }

    /// A new document holding `text`, with an empty history.
    pub fn new(text: String, replica_id: u64) -> (d: Self)
        requires
            replica_id != 0,
        ensures
            d.wf(),
            d@ == (DocumentView {
                text: text@,
                replica_id,
                history: Seq::empty(),
                timestamp: 0,
                units: fresh_chars(replica_id, 0, utf8(text@).len()),
                version: utf8(text@).len(),
            }),
    {
        let len = byte_len(&text);
        let crdt = replica_new(replica_id, len);
        let d = Document {
            buffer: text,
            crdt,
            replica_id,
            history: Vec::new(),
            current_timestamp: 0,
        };
        assert(d@.history =~= Seq::<ActionView>::empty());
        d
    }

    /// The timestamp of the latest edit (0 before any).
    pub fn timestamp(&self) -> (t: u64)
        ensures
            t == self@.timestamp,
    {
        self.current_timestamp
    }

    /// The identifier of the document's replica.
    pub fn replica_id(&self) -> (id: u64)
        ensures
            id == self@.replica_id,
    {
        self.replica_id
    }

    /// The text of the document.
    pub fn buffer(&self) -> (b: &String)
        ensures
            b@ == self@.text,
    {
        &self.buffer
    }

    /// A copy of this document under another replica identifier. When
    /// `new_replica_id` is this document's own identifier, a fresh one is
    /// taken from `ids` instead.
    pub fn fork(&self, new_replica_id: u64, ids: &mut ReplicaIds) -> (d: Self)
        requires
            self.wf(),
            new_replica_id != 0,
            new_replica_id == self@.replica_id ==> old(ids).next_id() < u64::MAX,
        ensures
            d.wf(),
            d@.text == self@.text,
            d@.history == self@.history,
            d@.timestamp == self@.timestamp,
            d@.units == self@.units,
            d@.version == 0,
            new_replica_id == self@.replica_id ==> {
                &&& d@.replica_id == old(ids).next_id()
                &&& final(ids).next_id() == old(ids).next_id() + 1
            },
            new_replica_id != self@.replica_id ==> {
                &&& d@.replica_id == new_replica_id
                &&& final(ids).next_id() == old(ids).next_id()
            },
    {
        let new_replica_id = if new_replica_id == self.replica_id {
            ids.take()
        } else {
            new_replica_id
        };
        let crdt = replica_fork(&self.crdt, new_replica_id);
        let d = Document {
            buffer: self.buffer.clone(),
            crdt,
            replica_id: new_replica_id,
            history: self.history.clone(),
            current_timestamp: self.current_timestamp,
        };
        assert(d.history@ =~= self.history@);
        d
    }

    /// Inserts `text` at byte position `insert_at` and records the edit.
    pub fn insert(&mut self, insert_at: usize, text: String) -> (ins: TextInsertion)
        requires
            old(self).wf(),
            boundary(old(self)@.text, insert_at as int),
            old(self)@.timestamp < u64::MAX,
        ensures
            final(self).wf(),
            utf8(final(self)@.text) == splice(
                utf8(old(self)@.text),
                insert_at as int,
                insert_at as int,
                utf8(text@),
            ),
            final(self)@.replica_id == old(self)@.replica_id,
            final(self)@.timestamp == old(self)@.timestamp + 1,
            final(self)@.history == old(self)@.history.push(
                ActionView::Insertion {
                    pos: insert_at as nat,
                    text: text@,
                    timestamp: old(self)@.timestamp + 1,
                },
            ),
            final(self)@ == after_insert(old(self)@, insert_at as nat, text@),
            ins.text == text,
            utf8(text@).len() == 0 ==> insertion_text(ins.crdt) == (0u64, 0nat, 0nat)
                && insertion_anchor(ins.crdt) == (0u64, 0nat),
            utf8(text@).len() > 0 ==> insertion_text(ins.crdt) == (
                old(self)@.replica_id,
                old(self)@.version,
                (old(self)@.version + utf8(text@).len()) as nat,
            ),
            utf8(text@).len() > 0 && insert_at == 0 ==> insertion_anchor(ins.crdt) == (0u64, 0nat),
            utf8(text@).len() > 0 && insert_at > 0 ==> insertion_anchor(ins.crdt) == after_unit(
                old(self)@.units[insert_at - 1],
            ),
    {
        let ghost old_bytes = utf8(self.buffer@);
        string_insert_str(&mut self.buffer, insert_at, text.as_str());
        let len = byte_len(&text);
        let crdt = replica_inserted(&mut self.crdt, insert_at, len);
        self.current_timestamp = self.current_timestamp + 1;
        let action = Action::Insertion {
            pos: insert_at,
            text: text.clone(),
            timestamp: self.current_timestamp,
        };
        self.history.push(action);
        proof {
            assert(actions_view(self.history@) =~= actions_view(old(self).history@).push(
                self.history@.last()@,
            ));
        }
        TextInsertion { text, crdt }
    }

    /// Deletes the bytes in `range` and records the edit.
    pub fn delete(&mut self, range: std::ops::Range<usize>) -> (del: cola::Deletion)
        requires
            old(self).wf(),
            range.start <= range.end,
            boundary(old(self)@.text, range.start as int),
            boundary(old(self)@.text, range.end as int),
            old(self)@.timestamp < u64::MAX,
        ensures
            final(self).wf(),
            utf8(final(self)@.text) == splice(
                utf8(old(self)@.text),
                range.start as int,
                range.end as int,
                Seq::empty(),
            ),
            final(self)@.replica_id == old(self)@.replica_id,
            final(self)@.timestamp == old(self)@.timestamp + 1,
            final(self)@.history == old(self)@.history.push(
                ActionView::Deletion {
                    range_start: range.start as nat,
                    range_end: range.end as nat,
                    timestamp: old(self)@.timestamp + 1,
                },
            ),
            final(self)@ == after_delete(old(self)@, range.start as nat, range.end as nat),
            range.start == range.end ==> deletion_by(del) == 0 && deletion_bounds(del) == (
                (0u64, 0nat),
                (0u64, 0nat),
            ),
            range.start < range.end ==> deletion_by(del) == old(self)@.replica_id
                && deletion_bounds(del) == (
                old(self)@.units[range.start as int],
                after_unit(old(self)@.units[range.end - 1]),
            ),
    {
        let start = range.start;
        let end = range.end;
        let empty = String::new();
        string_replace_range(&mut self.buffer, start, end, empty.as_str());
        assert(utf8(empty@) =~= Seq::<u8>::empty());
        let deletion = replica_deleted(&mut self.crdt, start, end);
        self.current_timestamp = self.current_timestamp + 1;
        let action = Action::Deletion {
            range_start: start,
            range_end: end,
            timestamp: self.current_timestamp,
        };
        self.history.push(action);
        proof {
            assert(actions_view(self.history@) =~= actions_view(old(self).history@).push(
                self.history@.last()@,
            ));
        }
        proof {
            assert(decode_utf8(utf8(self.buffer@)) == self.buffer@);
        }
        deletion
    }

    /// The recorded actions newer than `last_timestamp`, oldest first.
    pub fn get_operations_since(&self, last_timestamp: u64) -> (ops: Vec<Action>)
        requires
            self.wf(),
        ensures
            actions_view(ops@) == self@.history.filter(newer_than(last_timestamp as nat)),
    {
        let mut ops: Vec<Action> = Vec::new();
        let mut i: usize = 0;
        let ghost pred = newer_than(last_timestamp as nat);
        while i < self.history.len()
            invariant
                i <= self.history@.len(),
                pred == newer_than(last_timestamp as nat),
                actions_view(ops@) == actions_view(self.history@).take(i as int).filter(pred),
            decreases self.history@.len() - i,
        {
            let a = &self.history[i];
            let ghost before = actions_view(self.history@).take(i as int);
            proof {
                reveal(Seq::filter);
                assert(actions_view(self.history@).take(i as int + 1) =~= before.push(a@));
                assert(before.push(a@).drop_last() =~= before);
            }
            if a.timestamp() > last_timestamp {
                ops.push(a.clone());
                proof {
                    assert(actions_view(ops@) =~= actions_view(ops@).drop_last().push(a@));
                    assert(actions_view(ops@).drop_last() =~= before.filter(pred));
                }
            }
            i = i + 1;
        }
        proof {
            assert(actions_view(self.history@).take(i as int) =~= actions_view(self.history@));
        }
        ops
    }
}

} // verus!
