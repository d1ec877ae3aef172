use vstd::prelude::*;

use crate::anre::token::TokenWithRange;

verus! {

/// A stream of tokens that can be read one by one and looked ahead into.
pub struct PeekableIter {
    /// The tokens not read yet, the next one last.
    pending: Vec<TokenWithRange>,
}

impl PeekableIter {
    /// The tokens not read yet, in reading order.
    pub closed spec fn remaining(&self) -> Seq<TokenWithRange> {
        Seq::new(self.pending@.len(), |i: int| self.pending@[self.pending@.len() - 1 - i])
    }

    pub fn new(tokens: Vec<TokenWithRange>) -> (iter: Self)
        ensures
            iter.remaining() == tokens@,
    {
        let mut tokens = tokens;
        let ghost initial = tokens@;
        let mut pending: Vec<TokenWithRange> = Vec::new();
        while tokens.len() > 0
            invariant
                tokens@.len() + pending@.len() == initial.len(),
                tokens@ == initial.take(tokens@.len() as int),
                forall|i: int|
                    0 <= i < pending@.len() ==> pending@[i] == initial[initial.len() - 1 - i],
            decreases tokens@.len(),
        {
            let token = tokens.pop().unwrap();
            pending.push(token);
        }
        let iter = PeekableIter { pending };
        assert(iter.remaining() =~= initial);
        iter
    }

    /// The number of tokens not read yet.
    pub fn len(&self) -> (n: usize)
        ensures
            n == self.remaining().len(),
    {
        self.pending.len()
    }

    /// Reads the next token.
    pub fn next(&mut self) -> (token: Option<TokenWithRange>)
        ensures
            old(self).remaining().len() == 0 ==> token is None && final(self).remaining()
                == old(self).remaining(),
            old(self).remaining().len() > 0 ==> token == Some(old(self).remaining()[0])
                && final(self).remaining() == old(self).remaining().drop_first(),
    {
        let token = self.pending.pop();
        assert(self.remaining() =~= old(self).remaining().drop_first() || old(
            self,
        ).remaining().len() == 0);
        token
    }

    /// Looks at the token `offset` places ahead without reading it.
    pub fn peek(&self, offset: usize) -> (token: Option<&TokenWithRange>)
        ensures
            offset < self.remaining().len() ==> token == Some(&self.remaining()[offset as int]),
            offset >= self.remaining().len() ==> token is None,
    {
        let n = self.pending.len();
        if offset < n {
            Some(&self.pending[n - 1 - offset])
        } else {
            None
        }
    }

    /// Reads all the remaining tokens.
    pub fn collect(&mut self) -> (tokens: Vec<TokenWithRange>)
        ensures
            tokens@ == old(self).remaining(),
            final(self).remaining().len() == 0,
    {
        let ghost initial = self.remaining();
        let mut tokens: Vec<TokenWithRange> = Vec::new();
        while self.pending.len() > 0
            invariant
                tokens@ + self.remaining() == initial,
            decreases self.pending@.len(),
        {
            let ghost before = self.remaining();
            let token = self.pending.pop().unwrap();
            assert(self.remaining() =~= before.drop_first());
            tokens.push(token);
            assert(tokens@ + self.remaining() =~= initial);
        }
        assert(self.remaining() =~= Seq::<TokenWithRange>::empty());
        assert(tokens@ =~= initial);
        tokens
    }
}

} // verus!
