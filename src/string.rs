use vstd::prelude::*;

verus! {

/// A line of at most `LEN` bytes, held without allocation.
#[derive(Debug, Clone, Copy)]
pub struct String<const LEN: usize> {
    buffer: [u8; LEN],
    position: usize,
}

impl<const LEN: usize> View for String<LEN> {
    type V = Seq<u8>;

    closed spec fn view(&self) -> Seq<u8> {
        self.buffer@.take(self.position as int)
    }
}

impl<const LEN: usize> String<LEN> {
    #[verifier::type_invariant]
    spec fn inv(self) -> bool {
        self.position <= LEN
    }

    /// An empty line.
    pub fn new() -> (r: Self)
        ensures
            r@ == Seq::<u8>::empty(),
    {
        let r = String { buffer: [0u8; LEN], position: 0 };
        assert(r@ =~= Seq::<u8>::empty());
        r
    }

    /// The bytes of the line.
    pub fn as_bytes(&self) -> (r: &[u8])
        ensures
            r@ == self@,
            r@.len() <= LEN,
    {
        proof {
            use_type_invariant(self);
        }
        vstd::slice::slice_subrange(self.buffer.as_slice(), 0, self.position)
    }

    /// Appends `ch`, or drops it where the line already holds `LEN` bytes.
    pub fn push(&mut self, ch: u8)
        ensures
            final(self)@ == if old(self)@.len() < LEN {
                old(self)@.push(ch)
            } else {
                old(self)@
            },
            final(self)@.len() <= LEN,
    {
        proof {
            use_type_invariant(&*self);
        }
        if self.position < LEN {
            self.buffer[self.position] = ch;
            self.position = self.position + 1;
            assert(self@ =~= old(self)@.push(ch));
        }
    }

    /// Empties the line.
    pub fn clear(&mut self)
        ensures
            final(self)@ == Seq::<u8>::empty(),
    {
        self.position = 0;
        assert(self@ =~= Seq::<u8>::empty());
    }
}

} // verus!
