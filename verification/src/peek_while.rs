//! Runs of characters that satisfy a predicate.

use vstd::prelude::*;

use crate::parser::lemma_offset_in_source;
use crate::parser::Parser;

verus! {

/// A run over the next characters of a parser: it hands them out one by
/// one for as long as they satisfy a predicate, and leaves the first one
/// that does not in place.
pub struct PeekWhile<'a, P> {
    pub parser: &'a mut Parser,
    pub pred: P,
}

/// The run over the next characters of `parser` that satisfy `pred`.
pub fn peek_while<'a, P>(parser: &'a mut Parser, pred: P) -> (run: PeekWhile<'a, P>) where
    P: Fn(&char) -> bool,

    ensures
        *run.parser == *old(parser),
        *final(run.parser) == *final(parser),
        run.pred == pred,
{
    PeekWhile { parser, pred }
}

impl<'a, P> PeekWhile<'a, P> where P: Fn(&char) -> bool {
    /// The next character of the parser, consumed, if it satisfies the
    /// predicate. Otherwise, and at the end of the text, nothing changes.
    pub fn next(&mut self) -> (c: Option<char>)
        requires
            forall|c: char| call_requires(old(self).pred, (&c,)),
        ensures
            final(self).pred == old(self).pred,
            *final(final(self).parser) == *final(old(self).parser),
            match c {
                Some(c) => {
                    &&& old(self).parser@.first() == Some(c)
                    &&& call_ensures(old(self).pred, (&c,), true)
                    &&& final(self).parser@ == old(self).parser@.skip(1)
                },
                None => {
                    &&& final(self).parser@ == old(self).parser@
                    &&& old(self).parser@.first() matches Some(c) ==> call_ensures(
                        old(self).pred,
                        (&c,),
                        false,
                    )
                },
            },
    {
        match self.parser.peek() {
            Some(c) => {
                if (self.pred)(&c) {
                    self.parser.next()
                } else {
                    None
                }
            },
            None => None,
        }
    }

    /// The characters of the run, all consumed: the longest run of next
    /// characters of the parser of which each satisfies the predicate.
    pub fn collect(self) -> (text: String)
        requires
            forall|c: char| call_requires(self.pred, (&c,)),
        ensures
            final(self.parser)@ == old(self.parser)@.skip(text@.len() as int),
            final(self.parser)@.offset <= old(self.parser)@.source.len(),
            text@ == old(self.parser)@.source.subrange(
                old(self.parser)@.offset,
                final(self.parser)@.offset,
            ),
            forall|k: int|
                0 <= k < text@.len() ==> call_ensures(self.pred, (&#[trigger] text@[k],), true),
            final(self.parser)@.first() matches Some(c) ==> call_ensures(self.pred, (&c,), false),
    {
        let mut run = self;
        let mut text = String::new();
        let ghost start = run.parser@;
        proof {
            lemma_offset_in_source(run.parser);
        }
        loop
            invariant
                forall|c: char| call_requires(run.pred, (&c,)),
                run.pred == self.pred,
                *final(run.parser) == *final(self.parser),
                0 <= start.offset,
                start.offset + text@.len() <= start.source.len(),
                text@ == start.source.subrange(start.offset, start.offset + text@.len()),
                run.parser@ == start.skip(text@.len() as int),
                forall|k: int|
                    0 <= k < text@.len() ==> call_ensures(run.pred, (&#[trigger] text@[k],), true),
                start == old(self.parser)@,
            ensures
                run.parser@.first() matches Some(c) ==> call_ensures(run.pred, (&c,), false),
                run.parser@ == start.skip(text@.len() as int),
            decreases start.source.len() - start.offset - text@.len(),
        {
            let ghost before = text@;
            match run.next() {
                Some(c) => {
                    text.push(c);
                    proof {
                        let n = before.len() as int;
                        assert(text@ =~= start.source.subrange(
                            start.offset,
                            start.offset + n + 1,
                        ));
                    }
                },
                None => {
                    break ;
                },
            }
        }
        text
    }
}

} // verus!
