use vstd::prelude::*;

verus! {

/// The newline byte that ends a line of output.
pub const NEWLINE: u8 = 10;

/// Whether a byte sequence holds no newline.
pub open spec fn no_newline(s: Seq<u8>) -> bool {
    forall|i: int| 0 <= i < s.len() ==> #[trigger] s[i] != NEWLINE
}

/// The bytes that a sequence of lines stands for, each followed by a newline.
pub open spec fn joined(ls: Seq<Seq<u8>>) -> Seq<u8>
    decreases ls.len(),
{
    if ls.len() == 0 {
        Seq::empty()
    } else {
        joined(ls.drop_last()) + ls.last() + seq![NEWLINE]
    }
}

/// Splits a byte stream that arrives in pieces of any size into complete
/// lines, keeping the unfinished end of the stream until more arrives.
pub struct LineBuffer {
    pending: Vec<u8>,
}

impl LineBuffer {
    /// The bytes received after the last newline.
    pub closed spec fn view(&self) -> Seq<u8> {
        self.pending@
    }

    pub closed spec fn wf(&self) -> bool {
        no_newline(self.pending@)
    }

    /// A buffer that holds nothing yet.
    pub fn new() -> (r: LineBuffer)
        ensures
            r.wf(),
            r.view() == Seq::<u8>::empty(),
    {
        LineBuffer { pending: Vec::new() }
    }

    /// Takes the next piece of the stream and hands back the lines it
    /// completes, without their newlines. What was held before, followed by the
    /// piece, is exactly those lines, each with its newline, followed by what
    /// is held afterwards.
    pub fn push(&mut self, chunk: &[u8]) -> (lines: Vec<Vec<u8>>)
        requires
            old(self).wf(),
        ensures
            final(self).wf(),
            old(self).view() + chunk@ == joined(lines.deep_view()) + final(self).view(),
            forall|k: int| 0 <= k < lines.deep_view().len() ==> no_newline(
                #[trigger] lines.deep_view()[k],
            ),
    {
        let ghost start = self.pending@;
        let mut cur: Vec<u8> = Vec::new();
        std::mem::swap(&mut cur, &mut self.pending);
        let mut lines: Vec<Vec<u8>> = Vec::new();
        let mut i: usize = 0;
        while i < chunk.len()
            invariant
                i <= chunk@.len(),
                no_newline(cur@),
                start + chunk@.subrange(0, i as int) == joined(lines.deep_view()) + cur@,
                forall|k: int| 0 <= k < lines.deep_view().len() ==> no_newline(
                    #[trigger] lines.deep_view()[k],
                ),
            decreases chunk@.len() - i,
        {
            let b = chunk[i];
            let ghost before = lines.deep_view();
            let ghost held = cur@;
            assert(chunk@.subrange(0, i as int + 1) =~= chunk@.subrange(0, i as int).push(b));
            if b == NEWLINE {
                let mut done: Vec<u8> = Vec::new();
                std::mem::swap(&mut done, &mut cur);
                lines.push(done);
                assert(lines.deep_view().drop_last() =~= before);
                assert(joined(lines.deep_view()) =~= joined(before) + done@ + seq![NEWLINE]);
                assert(cur@ =~= Seq::<u8>::empty());
                assert(start + chunk@.subrange(0, i as int + 1) =~= joined(lines.deep_view())
                    + cur@);
                assert forall|k: int| 0 <= k < lines.deep_view().len() implies no_newline(
                    #[trigger] lines.deep_view()[k],
                ) by {
                    if k < before.len() {
                        assert(lines.deep_view()[k] == before[k]);
                    } else {
                        assert(lines.deep_view()[k] == held);
                    }
                }
            } else {
                cur.push(b);
                assert(lines.deep_view() =~= before);
                assert(start + chunk@.subrange(0, i as int + 1) =~= (start + chunk@.subrange(
                    0,
                    i as int,
                )).push(b));
                assert(joined(before) + cur@ =~= (joined(before) + held).push(b));
                assert(start + chunk@.subrange(0, i as int + 1) =~= joined(lines.deep_view())
                    + cur@);
            }
            i = i + 1;
        }
        assert(chunk@.subrange(0, i as int) =~= chunk@);
        self.pending = cur;
        lines
    }

    /// Ends the stream: hands back the unfinished last line, if there is one,
    /// and leaves the buffer empty.
    pub fn finish(&mut self) -> (r: Option<Vec<u8>>)
        requires
            old(self).wf(),
        ensures
            final(self).wf(),
            final(self).view() == Seq::<u8>::empty(),
            match r {
                None => old(self).view().len() == 0,
                Some(l) => l@ == old(self).view() && l@.len() > 0,
            },
    {
        let mut rest: Vec<u8> = Vec::new();
        std::mem::swap(&mut rest, &mut self.pending);
        if rest.len() == 0 {
            None
        } else {
            Some(rest)
        }
    }
}

} // verus!
