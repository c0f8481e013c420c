use vstd::prelude::*;

use crate::string::String;

verus! {

/// Whether `b` ends a line: a carriage return or a line feed.
pub open spec fn is_terminator(b: u8) -> bool {
    b == 13 || b == 10
}

/// What a receiver holds: the line being received, and the last completed
/// line that has not been taken yet.
pub type ReceiverView = (Seq<u8>, Option<Seq<u8>>);

/// What a receiver holds once `b` has arrived, with room for `cap` bytes in
/// a line. A terminator completes the line in progress, in place of any line
/// not yet taken; another control byte is ignored; any other byte is appended
/// where there is room and dropped where there is none.
pub open spec fn received(v: ReceiverView, b: u8, cap: nat) -> ReceiverView {
    if is_terminator(b) {
        (Seq::empty(), Some(v.0))
    } else if b < 32 {
        v
    } else if v.0.len() < cap {
        (v.0.push(b), v.1)
    } else {
        v
    }
}

/// What a receiver holds once each of `bytes` has arrived in turn.
pub open spec fn received_all(v: ReceiverView, bytes: Seq<u8>, cap: nat) -> ReceiverView
    decreases bytes.len(),
{
    if bytes.len() == 0 {
        v
    } else {
        received_all(received(v, bytes[0], cap), bytes.drop_first(), cap)
    }
}

/// Bytes that arrive in two parts are received as the whole.
pub proof fn lemma_received_all_append(v: ReceiverView, a: Seq<u8>, b: Seq<u8>, cap: nat)
    ensures
        received_all(v, a + b, cap) == received_all(received_all(v, a, cap), b, cap),
    decreases a.len(),
{
    if a.len() > 0 {
        assert((a + b).drop_first() =~= a.drop_first() + b);
        lemma_received_all_append(received(v, a[0], cap), a.drop_first(), b, cap);
    } else {
        assert(a + b =~= b);
    }
}

/// Printable bytes that fit are appended to the line in progress.
proof fn lemma_received_printable(v: ReceiverView, s: Seq<u8>, cap: nat)
    requires
        forall|i: int| 0 <= i < s.len() ==> #[trigger] s[i] >= 32,
        v.0.len() + s.len() <= cap,
    ensures
        received_all(v, s, cap) == (v.0 + s, v.1),
    decreases s.len(),
{
    if s.len() == 0 {
        assert(v.0 + s =~= v.0);
    } else {
        let w = received(v, s[0], cap);
        let t = s.drop_first();
        assert forall|i: int| 0 <= i < t.len() implies #[trigger] t[i] >= 32 by {
            assert(t[i] == s[i + 1]);
        }
        lemma_received_printable(w, t, cap);
        assert(v.0.push(s[0]) + t =~= v.0 + s);
    }
}

/// When a second line is completed before the first is taken, only the
/// second remains to be taken.
pub proof fn lemma_last_line_wins(v: ReceiverView, first: Seq<u8>, second: Seq<u8>, cap: nat)
    requires
        forall|i: int| 0 <= i < second.len() ==> #[trigger] second[i] >= 32,
        second.len() <= cap,
    ensures
        received_all(v, first + seq![10u8] + second + seq![10u8], cap).1 == Some(second),
{
    let end = seq![10u8];
    assert(end[0] == 10u8);
    assert(end.drop_first() =~= Seq::<u8>::empty());
    lemma_received_all_append(v, first + end + second, end, cap);
    lemma_received_all_append(v, first + end, second, cap);
    lemma_received_all_append(v, first, end, cap);
    let p = received_all(v, first, cap);
    assert(received_all(p, end, cap) == received_all(received(p, 10u8, cap), Seq::<u8>::empty(), cap));
    let u = received_all(v, first + end, cap);
    assert(u.0 == Seq::<u8>::empty());
    lemma_received_printable(u, second, cap);
    let q = received_all(u, second, cap);
    assert(received_all(q, end, cap) == received_all(received(q, 10u8, cap), Seq::<u8>::empty(), cap));
    assert(Seq::<u8>::empty() + second =~= second);
}

/// Collects bytes into lines and holds the last completed one until it is
/// taken.
pub struct LineReceiver<const LEN: usize> {
    buffer: String<LEN>,
    line: Option<String<LEN>>,
}

impl<const LEN: usize> View for LineReceiver<LEN> {
    type V = ReceiverView;

    closed spec fn view(&self) -> ReceiverView {
        (
            self.buffer@,
            match self.line {
                Some(l) => Some(l@),
                None => None,
            },
        )
    }
}

impl<const LEN: usize> LineReceiver<LEN> {
    /// A receiver with no line in progress and none completed.
    pub fn new() -> (r: Self)
        ensures
            r@ == (Seq::<u8>::empty(), None::<Seq<u8>>),
    {
        LineReceiver { buffer: String::new(), line: None }
    }

    /// Handles one received byte.
    pub fn receive(&mut self, byte: u8)
        ensures
            final(self)@ == received(old(self)@, byte, LEN as nat),
    {
        if byte == 13 || byte == 10 {
            let done = self.buffer;
            self.line = Some(done);
            self.buffer.clear();
        } else if byte >= 32 {
            self.buffer.push(byte);
        }
    }

    /// Removes and returns the completed line, if there is one.
    pub fn take(&mut self) -> (r: Option<String<LEN>>)
        ensures
            match r {
                Some(l) => old(self)@.1 == Some(l@),
                None => old(self)@.1 is None,
            },
            final(self)@ == (old(self)@.0, None::<Seq<u8>>),
    {
        self.line.take()
    }
}

} // verus!
