use vstd::prelude::*;
use vstd::string::StringSliceAdditionalSpecFns;

verus! {

/// The longest prefix of `src` that holds at most `cap` bytes.
pub open spec fn fit(src: Seq<u8>, cap: int) -> Seq<u8> {
    if src.len() <= cap {
        src
    } else {
        src.subrange(0, cap)
    }
}

/// `buf` after `content` has been written at its start and followed by a
/// null byte; the bytes past the terminator are those of `buf`.
pub open spec fn terminated(buf: Seq<u8>, content: Seq<u8>) -> Seq<u8> {
    content + seq![0u8] + buf.subrange(content.len() + 1int, buf.len() as int)
}

/// Copies as much of `src` as fits into `dest` while leaving room for the
/// terminator, writes the terminator right after it, and returns the number
/// of bytes copied.
pub fn copy_str(dest: &mut [u8], src: &[u8]) -> (r: usize)
    requires
        old(dest)@.len() >= 1,
    ensures
        r == fit(src@, old(dest)@.len() - 1).len(),
        final(dest)@ == terminated(old(dest)@, fit(src@, old(dest)@.len() - 1)),
{
    let len: usize = if src.len() < dest.len() - 1 {
        src.len()
    } else {
        dest.len() - 1
    };
    let mut i: usize = 0;
    while i < len
        invariant
            len <= src@.len(),
            len < dest@.len(),
            len == fit(src@, old(dest)@.len() - 1).len(),
            i <= len,
            dest@.len() == old(dest)@.len(),
            forall|k: int| 0 <= k < i ==> dest@[k] == src@[k],
            forall|k: int| i <= k < dest@.len() ==> dest@[k] == old(dest)@[k],
        decreases len - i,
    {
        dest[i] = src[i];
        i = i + 1;
    }
    dest[len] = 0u8;
    assert(dest@ =~= terminated(old(dest)@, fit(src@, old(dest)@.len() - 1)));
    len
}

/// The bytes of a sequence of text fragments, one after another.
pub open spec fn fragment_bytes(frags: Seq<&str>) -> Seq<u8>
    decreases frags.len(),
{
    if frags.len() == 0 {
        Seq::empty()
    } else {
        fragment_bytes(frags.drop_last()) + frags.last().spec_bytes()
    }
}

/// A cursor that formats text into a caller-owned buffer, keeping it null
/// terminated after every write and silently dropping what does not fit.
pub struct BufFmtWriter<'a> {
    buf: &'a mut [u8],
    used: usize,
    start: Ghost<Seq<u8>>,
    requested: Ghost<Seq<u8>>,
}

impl<'a> BufFmtWriter<'a> {
    /// The buffer written into.
    pub closed spec fn buffer(&self) -> &'a mut [u8] {
        self.buf
    }

    /// The number of content bytes committed so far.
    pub closed spec fn spec_used(&self) -> usize {
        self.used
    }

    /// The buffer's contents when the writer was made.
    pub closed spec fn start(&self) -> Seq<u8> {
        self.start@
    }

    /// Every byte handed to the writer so far, whether or not it fit.
    pub closed spec fn requested(&self) -> Seq<u8> {
        self.requested@
    }

    /// The buffer holds the part of the requested bytes that fits before its
    /// last byte, then a terminator, then what it held at the start.
    pub open spec fn wf(&self) -> bool {
        let n = self.buffer()@.len();
        &&& n >= 1
        &&& self.start().len() == n
        &&& self.spec_used() == fit(self.requested(), n - 1).len()
        &&& self.buffer()@ == terminated(self.start(), fit(self.requested(), n - 1))
    }

    /// Starts a write into `buf`, which must hold at least one byte; the
    /// buffer is terminated at once.
    pub fn new(buf: &'a mut [u8]) -> (w: Self)
        requires
            old(buf)@.len() >= 1,
        ensures
            w.wf(),
            w.spec_used() == 0,
            w.requested() == Seq::<u8>::empty(),
            w.start() == old(buf)@,
            final(w.buffer())@ == final(buf)@,
    {
        let start = Ghost(buf@);
        buf[0] = 0u8;
        let w = BufFmtWriter { buf, used: 0, start, requested: Ghost(Seq::empty()) };
        assert(w.buf@ =~= terminated(start@, fit(Seq::empty(), w.buf@.len() - 1)));
        w
    }

    /// The number of content bytes committed so far.
    pub fn used(&self) -> (r: usize)
        ensures
            r == self.spec_used(),
    {
        self.used
    }

    /// Appends the bytes of `s`, or as many of them as fit before the
    /// buffer's last byte, and moves the terminator behind them. Once the
    /// buffer is full, further text is dropped.
    pub fn write_str(&mut self, s: &str)
        requires
            old(self).wf(),
        ensures
            final(self).wf(),
            final(self).requested() == old(self).requested() + s.spec_bytes(),
            final(self).start() == old(self).start(),
            final(final(self).buffer())@ == final(old(self).buffer())@,
    {
        let ghost req = self.requested@ + s.spec_bytes();
        let ghost n = self.buf@.len();
        if self.used >= self.buf.len() - 1 {
            self.requested = Ghost(req);
            assert(fit(req, n - 1) =~= fit(self.requested@, n - 1)) by {
                assert(fit(old(self).requested@, n - 1) =~= fit(req, n - 1));
            }
            return;
        }
        let used = self.used;
        let bytes = s.as_bytes();
        let (_, rest) = self.buf.split_at_mut(used);
        let k = copy_str(rest, bytes);
        self.used = used + k;
        self.requested = Ghost(req);
        assert(self.buf@ =~= terminated(self.start@, fit(req, n - 1)));
    }
}

/// Writes the fragments of a formatted message into `buf` one after another,
/// keeping as many bytes as fit before the buffer's last byte, then a null
/// terminator; returns the number of bytes kept, terminator excluded. Bytes
/// past the terminator are left as they were.
pub fn fmt_to_buf(buf: &mut [u8], frags: &[&str]) -> (r: usize)
    requires
        old(buf)@.len() >= 1,
    ensures
        r == fit(fragment_bytes(frags@), old(buf)@.len() - 1).len(),
        final(buf)@ == terminated(old(buf)@, fit(fragment_bytes(frags@), old(buf)@.len() - 1)),
{
    let ghost start = buf@;
    let ghost out = final(buf)@;
    let mut w = BufFmtWriter::new(buf);
    let mut i: usize = 0;
    while i < frags.len()
        invariant
            w.wf(),
            w.start() == start,
            i <= frags@.len(),
            w.requested() == fragment_bytes(frags@.subrange(0, i as int)),
            final(w.buffer())@ == out,
        decreases frags@.len() - i,
    {
        assert(frags@.subrange(0, i + 1).drop_last() =~= frags@.subrange(0, i as int));
        w.write_str(frags[i]);
        i = i + 1;
    }
    assert(frags@.subrange(0, i as int) =~= frags@);
    w.used
}

/// A bounded write into a buffer of `n >= 1` bytes keeps the buffer's
/// length and leaves a null byte at the end of the kept content, at index
/// `n - 1` or earlier. Content of at most `n - 1` bytes is kept whole;
/// longer content is cut to its first `n - 1` bytes,
/// with the terminator at index `n - 1`.
pub proof fn lemma_bounded_write(before: Seq<u8>, content: Seq<u8>)
    requires
        before.len() >= 1,
    ensures
        ({
            let n = before.len() as int;
            let kept = fit(content, n - 1);
            let after = terminated(before, kept);
            &&& after.len() == n
            &&& kept.len() <= n - 1
            &&& after[kept.len() as int] == 0
            &&& after.subrange(0, kept.len() as int) == kept
            &&& content.len() <= n - 1 ==> kept == content
            &&& content.len() > n - 1 ==> kept.len() == n - 1 && kept == content.subrange(0, n - 1)
                && after[n - 1] == 0
        }),
{
    let n = before.len() as int;
    let kept = fit(content, n - 1);
    assert(terminated(before, kept).subrange(0, kept.len() as int) =~= kept);
}

/// Formats like `fmt_to_buf`, then returns the kept content with its
/// terminator, as a view into `buf` ready for a C-style interface.
pub fn fmt_to_cstr<'a>(buf: &'a mut [u8], frags: &[&str]) -> (r: &'a [u8])
    requires
        old(buf)@.len() >= 1,
    ensures
        r@ == fit(fragment_bytes(frags@), old(buf)@.len() - 1).push(0u8),
{
    let ghost start = buf@;
    // read before the write: bounds `len + 1` below
    let n = buf.len();
    let len = fmt_to_buf(buf, frags);
    proof {
        lemma_bounded_write(start, fragment_bytes(frags@));
    }
    let view: &'a [u8] = buf;
    let r = vstd::slice::slice_subrange(view, 0, len + 1);
    assert(r@ =~= fit(fragment_bytes(frags@), old(buf)@.len() - 1).push(0u8));
    r
}

/// No byte of `b` is zero.
pub open spec fn no_nul(b: Seq<u8>) -> bool {
    forall|i: int| 0 <= i < b.len() ==> b[i] != 0
}

/// A text literal on its way to becoming a null-terminated byte array.
pub struct ToCStr<'a>(pub &'a str);

/// A byte string without zero bytes, followed by a null byte, has that null
/// byte as its last and only zero byte, and holds the string's bytes before
/// it.
pub proof fn lemma_terminated_literal(b: Seq<u8>)
    requires
        no_nul(b),
    ensures
        b.push(0u8).len() == b.len() + 1,
        b.push(0u8).last() == 0,
        b.push(0u8).subrange(0, b.len() as int) == b,
        forall|i: int| 0 <= i < b.len() ==> b.push(0u8)[i] != 0,
{
    assert(b.push(0u8).subrange(0, b.len() as int) =~= b);
}

impl ToCStr<'_> {
    /// The literal's bytes.
    pub open spec fn bytes(&self) -> Seq<u8> {
        self.0.spec_bytes()
    }

    /// The literal is fit to be terminated: it holds no zero byte, and its
    /// terminated length can be counted in a `usize`.
    pub open spec fn valid(&self) -> bool {
        no_nul(self.bytes()) && self.bytes().len() < usize::MAX
    }

    /// Tells whether the literal holds no zero byte.
    pub fn has_no_nul(&self) -> (r: bool)
        ensures
            r == no_nul(self.bytes()),
    {
        let bytes = self.0.as_bytes();
        let mut i: usize = 0;
        while i < bytes.len()
            invariant
                bytes@ == self.bytes(),
                i <= bytes@.len(),
                forall|k: int| 0 <= k < i ==> bytes@[k] != 0,
            decreases bytes@.len() - i,
        {
            if bytes[i] == 0 {
                return false;
            }
            i = i + 1;
        }
        true
    }

    /// Walks the literal's bytes; the precondition is what rules out a zero
    /// byte, so a literal holding one is refused where it is used.
    fn assert_no_nul(&self)
        requires
            no_nul(self.bytes()),
    {
        let bytes = self.0.as_bytes();
        let mut i: usize = 0;
        while i < bytes.len()
            invariant
                bytes@ == self.bytes(),
                no_nul(bytes@),
                i <= bytes@.len(),
            decreases bytes@.len() - i,
        {
            assert(bytes@[i as int] != 0);
            i = i + 1;
        }
    }

    /// The length of the terminated array: the literal's byte length plus one.
    pub fn eval_len(&self) -> (r: usize)
        requires
            self.valid(),
        ensures
            r == self.bytes().len() + 1,
    {
        self.assert_no_nul();
        self.0.as_bytes().len() + 1
    }

    /// The literal's bytes followed by a single null byte, in an array whose
    /// length is the one `eval_len` gives.
    pub fn eval_bytes<const N: usize>(&self) -> (r: [u8; N])
        requires
            self.valid(),
            N == self.bytes().len() + 1,
        ensures
            r@ == self.bytes().push(0u8),
    {
        let mut buf: [u8; N] = [0u8; N];
        let bytes = self.0.as_bytes();
        let mut i: usize = 0;
        while i < bytes.len()
            invariant
                bytes@ == self.bytes(),
                N == bytes@.len() + 1,
                i <= bytes@.len(),
                buf@.len() == N,
                forall|k: int| 0 <= k < i ==> buf@[k] == bytes@[k],
                forall|k: int| i <= k < N ==> buf@[k] == 0,
            decreases bytes@.len() - i,
        {
            buf[i] = bytes[i];
            i = i + 1;
        }
        assert(buf@ =~= self.bytes().push(0u8));
        buf
    }
}

} // verus!
