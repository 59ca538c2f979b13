//! Lines of bytes: what a line is, and a buffer that lets only whole lines
//! through.

use vstd::prelude::*;

verus! {

/// The byte that ends a line.
pub const NEWLINE: u8 = 10;

/// Whether `s` ends where a line ends: it is empty or its last byte is a
/// newline.
pub open spec fn ends_line(s: Seq<u8>) -> bool {
    s.len() == 0 || s.last() == NEWLINE
}

/// Whether `s` holds no newline.
pub open spec fn unbroken(s: Seq<u8>) -> bool {
    forall|i: int| 0 <= i < s.len() ==> s[i] != NEWLINE
}

/// How many bytes of `s` belong to whole lines: the length up to and
/// including its last newline, 0 where it has none.
pub open spec fn whole_len(s: Seq<u8>) -> nat
    decreases s.len(),
{
    if s.len() == 0 {
        0
    } else if s.last() == NEWLINE {
        s.len()
    } else {
        whole_len(s.drop_last())
    }
}

/// The whole lines at the start of `s`.
pub open spec fn released(s: Seq<u8>) -> Seq<u8> {
    s.subrange(0, whole_len(s) as int)
}

/// What follows the last newline of `s`: the start of a line that has not
/// ended yet.
pub open spec fn held_back(s: Seq<u8>) -> Seq<u8> {
    s.subrange(whole_len(s) as int, s.len() as int)
}

/// Where a newline stands just before index `k`, or `k` is 0, and none
/// stands from `k` on, the whole lines of `s` have `k` bytes.
pub proof fn lemma_whole_len_is(s: Seq<u8>, k: int)
    requires
        0 <= k <= s.len(),
        k == 0 || s[k - 1] == NEWLINE,
        forall|j: int| k <= j < s.len() ==> s[j] != NEWLINE,
    ensures
        whole_len(s) == k,
    decreases s.len(),
{
    if s.len() > 0 && k < s.len() {
        lemma_whole_len_is(s.drop_last(), k);
    }
}

/// `s` is its whole lines followed by what it holds back; the whole lines
/// end a line, and what is held back holds no newline.
pub proof fn lemma_released_and_held_back(s: Seq<u8>)
    ensures
        whole_len(s) <= s.len(),
        released(s) + held_back(s) == s,
        ends_line(released(s)),
        unbroken(held_back(s)),
    decreases s.len(),
{
    if s.len() > 0 && s.last() != NEWLINE {
        let front = s.drop_last();
        lemma_released_and_held_back(front);
        assert(released(s) =~= released(front));
        assert(held_back(s) =~= held_back(front).push(s.last()));
    }
    assert(released(s) + held_back(s) =~= s);
}

/// How many bytes the first line of `s` has, its newline included; all of
/// `s` where it has no newline.
pub open spec fn line_len(s: Seq<u8>) -> nat
    decreases s.len(),
{
    if s.len() == 0 {
        0
    } else if s[0] == NEWLINE {
        1
    } else {
        1 + line_len(s.drop_first())
    }
}

/// The first line is not empty and no longer than the text, and ends with
/// a newline unless it is all of the text.
pub proof fn lemma_line_len_bounds(s: Seq<u8>)
    requires
        s.len() > 0,
    ensures
        1 <= line_len(s) <= s.len(),
        line_len(s) < s.len() ==> s[line_len(s) - 1] == NEWLINE,
    decreases s.len(),
{
    if s[0] != NEWLINE {
        let rest = s.drop_first();
        if rest.len() > 0 {
            lemma_line_len_bounds(rest);
            assert(rest[line_len(rest) - 1] == s[line_len(rest) as int]);
        } else {
            assert(line_len(rest) == 0);
        }
    }
}

/// The lines of `s`, in order: each ends with its newline, but for the last
/// one where `s` does not end with a newline.
pub open spec fn lines(s: Seq<u8>) -> Seq<Seq<u8>>
    decreases s.len(),
{
    if s.len() == 0 {
        Seq::empty()
    } else {
        proof {
            lemma_line_len_bounds(s);
        }
        let n = line_len(s) as int;
        seq![s.subrange(0, n)] + lines(s.subrange(n, s.len() as int))
    }
}

/// The first line of a text that ends a line is the first line of that text
/// with anything behind it.
proof fn lemma_line_len_joined(a: Seq<u8>, b: Seq<u8>)
    requires
        a.len() > 0,
        ends_line(a),
    ensures
        line_len(a + b) == line_len(a),
    decreases a.len(),
{
    let joined = a + b;
    assert(joined[0] == a[0]);
    if a[0] != NEWLINE {
        let rest = a.drop_first();
        assert(rest.len() > 0);
        assert(rest.last() == a.last());
        assert(joined.drop_first() =~= rest + b);
        lemma_line_len_joined(rest, b);
    }
}

/// Where `a` ends a line, the lines of `a` followed by `b` are the lines of
/// `a` and then the lines of `b`: no line reaches across the seam.
pub proof fn lines_of_joined(a: Seq<u8>, b: Seq<u8>)
    requires
        ends_line(a),
    ensures
        lines(a + b) == lines(a) + lines(b),
    decreases a.len(),
{
    if a.len() == 0 {
        assert(a + b =~= b);
        assert(lines(a) + lines(b) =~= lines(b));
    } else {
        let joined = a + b;
        lemma_line_len_bounds(a);
        lemma_line_len_joined(a, b);
        let n = line_len(a) as int;
        let rest = a.subrange(n, a.len() as int);
        assert(joined.subrange(0, n) =~= a.subrange(0, n));
        assert(joined.subrange(n, joined.len() as int) =~= rest + b);
        if rest.len() > 0 {
            assert(rest.last() == a.last());
        }
        lines_of_joined(rest, b);
        assert(lines(joined) =~= lines(a) + lines(b));
    }
}

/// The chunks one after the other.
pub open spec fn joined(chunks: Seq<Seq<u8>>) -> Seq<u8>
    decreases chunks.len(),
{
    if chunks.len() == 0 {
        Seq::empty()
    } else {
        joined(chunks.drop_last()) + chunks.last()
    }
}

/// The lines of each chunk, chunk after chunk.
pub open spec fn lines_of_each(chunks: Seq<Seq<u8>>) -> Seq<Seq<u8>>
    decreases chunks.len(),
{
    if chunks.len() == 0 {
        Seq::empty()
    } else {
        lines_of_each(chunks.drop_last()) + lines(chunks.last())
    }
}

/// Chunks that each end a line, written one after the other, give exactly
/// the lines of the chunks: every line of what was written lies within one
/// chunk, and none is made of bytes of two. The last chunk alone may end in
/// the middle of a line.
pub proof fn written_lines_stay_whole(chunks: Seq<Seq<u8>>)
    requires
        forall|i: int| 0 <= i < chunks.len() - 1 ==> ends_line(#[trigger] chunks[i]),
    ensures
        lines(joined(chunks)) == lines_of_each(chunks),
        chunks.len() > 0 && ends_line(chunks.last()) ==> ends_line(joined(chunks)),
    decreases chunks.len(),
{
    if chunks.len() > 0 {
        let front = chunks.drop_last();
        assert forall|i: int| 0 <= i < front.len() implies ends_line(#[trigger] front[i]) by {
            assert(front[i] == chunks[i]);
        }
        written_lines_stay_whole(front);
        if front.len() > 0 {
            assert(ends_line(front.last()));
        }
        assert(ends_line(joined(front)));
        lines_of_joined(joined(front), chunks.last());
        if chunks.last().len() > 0 {
            assert(joined(chunks).last() == chunks.last().last());
        } else {
            assert(joined(chunks) =~= joined(front));
        }
    } else {
        assert(lines(joined(chunks)) =~= lines_of_each(chunks));
    }
}

/// Bytes that wait for the end of their line.
///
/// Bytes go in as they are read and come out in whole lines. What follows
/// the last newline stays inside until its line ends or the stream does, so
/// the buffer never holds a newline.
#[derive(Debug)]
pub struct LineBuffer {
    pending: Vec<u8>,
}

impl View for LineBuffer {
    type V = Seq<u8>;

    /// The bytes that are held back.
    closed spec fn view(&self) -> Seq<u8> {
        self.pending@
    }
}

impl LineBuffer {
    #[verifier::type_invariant]
    spec fn holds_no_newline(self) -> bool {
        unbroken(self.pending@)
    }

    /// A buffer that holds nothing.
    pub fn new() -> (r: LineBuffer)
        ensures
            r@ == Seq::<u8>::empty(),
    {
        LineBuffer { pending: Vec::new() }
    }

    /// How many bytes are held back.
    pub fn len(&self) -> (n: usize)
        ensures
            n == self@.len(),
            unbroken(self@),
    {
        proof {
            use_type_invariant(self);
        }
        self.pending.len()
    }

    /// Takes in `data` and gives out the whole lines that the buffer now
    /// holds: everything up to and including the last newline. What follows
    /// that newline is held back.
    pub fn push(&mut self, data: &[u8]) -> (chunk: Vec<u8>)
        ensures
            chunk@ == released(old(self)@ + data@),
            final(self)@ == held_back(old(self)@ + data@),
            chunk@ + final(self)@ == old(self)@ + data@,
            ends_line(chunk@),
    {
        proof {
            use_type_invariant(&*self);
        }
        let ghost before = self.pending@;
        let ghost all = before + data@;
        let mut cut: usize = 0;
        let mut i: usize = 0;
        while i < data.len()
            invariant
                cut <= i <= data.len(),
                cut == 0 || data@[cut - 1] == NEWLINE,
                forall|j: int| cut <= j < i ==> data@[j] != NEWLINE,
            decreases data.len() - i,
        {
            if data[i] == NEWLINE {
                cut = i + 1;
            }
            i += 1;
        }
        proof {
            lemma_released_and_held_back(all);
        }
        let mut chunk: Vec<u8> = Vec::new();
        let mut rest: Vec<u8> = Vec::new();
        std::mem::swap(&mut self.pending, &mut rest);
        if cut == 0 {
            proof {
                lemma_whole_len_is(all, 0);
            }
        } else {
            proof {
                assert(all[before.len() + cut - 1] == data@[cut - 1]);
                assert forall|j: int| before.len() + cut <= j < all.len() implies all[j]
                    != NEWLINE by {
                    assert(all[j] == data@[j - before.len()]);
                }
                lemma_whole_len_is(all, before.len() + cut);
            }
            std::mem::swap(&mut rest, &mut chunk);
            let mut k: usize = 0;
            while k < cut
                invariant
                    k <= cut <= data.len(),
                    chunk@ == before + data@.subrange(0, k as int),
                decreases cut - k,
            {
                chunk.push(data[k]);
                assert(chunk@ =~= before + data@.subrange(0, k + 1));
                k += 1;
            }
        }
        let ghost kept = rest@;
        let mut k: usize = cut;
        while k < data.len()
            invariant
                cut <= k <= data.len(),
                rest@ == kept + data@.subrange(cut as int, k as int),
            decreases data.len() - k,
        {
            rest.push(data[k]);
            assert(rest@ =~= kept + data@.subrange(cut as int, k + 1));
            k += 1;
        }
        assert(rest@ =~= held_back(all));
        assert(chunk@ =~= released(all));
        std::mem::swap(&mut self.pending, &mut rest);
        chunk
    }

    /// Gives out what is held back, as the end of the stream has been
    /// reached, and leaves the buffer empty.
    pub fn finish(&mut self) -> (chunk: Vec<u8>)
        ensures
            chunk@ == old(self)@,
            final(self)@ == Seq::<u8>::empty(),
            unbroken(chunk@),
    {
        proof {
            use_type_invariant(&*self);
        }
        let mut chunk: Vec<u8> = Vec::new();
        std::mem::swap(&mut self.pending, &mut chunk);
        chunk
    }
}

/// What a buffer gives out and what it holds back in the end, when `reads`
/// are pushed into an empty buffer one after the other.
pub open spec fn fed(reads: Seq<Seq<u8>>) -> (Seq<Seq<u8>>, Seq<u8>)
    decreases reads.len(),
{
    if reads.len() == 0 {
        (Seq::empty(), Seq::empty())
    } else {
        let (chunks, pending) = fed(reads.drop_last());
        let all = pending + reads.last();
        (chunks.push(released(all)), held_back(all))
    }
}

/// A buffer loses nothing and tears nothing: what it gave out and what it
/// holds back are together what went in, in the same order; every chunk it
/// gave out ends a line; what it holds back holds no newline, and is nothing
/// at all where what went in ends a line.
pub proof fn buffer_keeps_lines_whole(reads: Seq<Seq<u8>>)
    ensures
        joined(fed(reads).0) + fed(reads).1 == joined(reads),
        fed(reads).0.len() == reads.len(),
        forall|i: int| 0 <= i < reads.len() ==> ends_line(#[trigger] fed(reads).0[i]),
        unbroken(fed(reads).1),
        ends_line(joined(reads)) ==> fed(reads).1.len() == 0,
    decreases reads.len(),
{
    if reads.len() > 0 {
        let front = reads.drop_last();
        buffer_keeps_lines_whole(front);
        let (chunks, pending) = fed(front);
        let all = pending + reads.last();
        lemma_released_and_held_back(all);
        let out = chunks.push(released(all));
        assert(out.drop_last() =~= chunks);
        assert(joined(out) + held_back(all) =~= joined(chunks) + (released(all) + held_back(all)));
        assert(joined(reads) =~= joined(chunks) + all);
        assert forall|i: int| 0 <= i < reads.len() implies ends_line(
            #[trigger] fed(reads).0[i],
        ) by {
            if i < chunks.len() {
                assert(out[i] == fed(front).0[i]);
            }
        }
    }
    let rest = fed(reads).1;
    if ends_line(joined(reads)) && rest.len() > 0 {
        assert(joined(reads).last() == rest.last());
    }
}

} // verus!
