//! The growable byte buffer: an owned window over a byte vector that keeps a
//! terminating zero after its content, or a read-only view of memory that the
//! caller owns.
use vstd::prelude::*;

verus! {

/// An allocation failed; the buffer is inert from then on.
pub const BUF_FLAG_OOM: u32 = 1;

/// A growth request passed the largest representable size; the buffer is inert
/// from then on.
pub const BUF_FLAG_OVERFLOW: u32 = 2;

/// The buffer is a read-only view of memory that the caller owns.
pub const BUF_FLAG_STATIC: u32 = 4;

/// The ceiling on `use + requested growth`.
pub const MAX_SIZE: usize = usize::MAX - 1;

/// Slack added when a buffer grows to exactly what was asked for.
pub const GROW_SLACK: usize = 100;

/// Why an operation on a buffer failed.
#[derive(Debug, Clone, Copy, PartialEq, Eq, Structural)]
pub enum BufError {
    /// A required input was missing, or a requested capacity cannot be represented.
    InvalidArgument,
    /// The request does not fit in the room or the size limit of the buffer.
    CapacityExceeded,
    /// The buffer is static or in an error state, and cannot be changed.
    NotWritable,
}

/// The abstract state of an [`XmlBuf`].
pub struct BufModel {
    /// Every byte of the owned storage: `offset` spare bytes, the content, the
    /// terminator slot and the room after it. Empty for a static buffer.
    pub storage: Seq<u8>,
    /// Where the content window starts in `storage`.
    pub offset: nat,
    /// The logical length (`use`).
    pub len: nat,
    /// The capacity of the window, not counting the terminator slot (`size`).
    pub capacity: nat,
    /// An allocation or overflow error happened; the buffer is inert.
    pub error: bool,
    /// The address of the caller's memory, for a static buffer.
    pub static_addr: Option<usize>,
}

impl BufModel {
    pub open spec fn is_static(self) -> bool {
        self.static_addr is Some
    }

    /// Mutators act only on a buffer that is neither static nor in error.
    pub open spec fn writable(self) -> bool {
        !self.error && !self.is_static()
    }

    /// The shape that every buffer keeps.
    pub open spec fn valid(self) -> bool {
        &&& self.len <= self.capacity
        &&& self.is_static() ==> self.storage.len() == 0 && self.offset == 0 && self.len
            == self.capacity
        &&& !self.is_static() ==> self.storage.len() == self.offset + self.capacity + 1
        &&& !self.is_static() ==> self.terminated()
    }

    /// The logical content of an owned buffer.
    pub open spec fn data(self) -> Seq<u8> {
        self.storage.subrange(self.offset as int, (self.offset + self.len) as int)
    }

    /// The owned content is followed by a zero byte.
    pub open spec fn terminated(self) -> bool {
        self.storage[(self.offset + self.len) as int] == 0
    }

    /// Room left after the content; none at all in an error state.
    pub open spec fn avail(self) -> nat {
        if self.error {
            0
        } else {
            (self.capacity - self.len) as nat
        }
    }
}

/// A buffer made by `XmlBuf::new(size)`.
pub open spec fn new_model(size: nat) -> BufModel {
    BufModel {
        storage: Seq::new(size + 1, |i: int| 0u8),
        offset: 0,
        len: 0,
        capacity: size,
        error: false,
        static_addr: None,
    }
}

/// The same buffer, emptied: the window slides back to the start of the storage.
pub open spec fn empty_model(m: BufModel) -> BufModel {
    if m.writable() {
        BufModel {
            storage: m.storage.update(0, 0u8),
            offset: 0,
            len: 0,
            capacity: m.capacity + m.offset,
            ..m
        }
    } else {
        m
    }
}

/// The window slid to the start of the storage: the content and its terminator
/// move to position 0, the bytes after them stay where they are.
pub open spec fn slide(s: Seq<u8>, offset: nat, len: nat) -> Seq<u8> {
    Seq::new(s.len(), |i: int| if i <= len { s[offset + i] } else { s[i] })
}

/// The capacity that `grow` picks when the storage has to be reallocated.
pub open spec fn grown_size(size: nat, len: nat, req: nat) -> nat {
    if size > req {
        if size <= MAX_SIZE / 2 {
            size * 2
        } else {
            MAX_SIZE as nat
        }
    } else if len + req <= MAX_SIZE - GROW_SLACK {
        (len + req + GROW_SLACK) as nat
    } else {
        len + req
    }
}

/// What `grow(req)` reports.
pub open spec fn grow_result(m: BufModel, req: nat) -> Result<(), BufError> {
    if !m.writable() {
        Err(BufError::NotWritable)
    } else if req <= m.offset + m.capacity - m.len {
        Ok(())
    } else if req > MAX_SIZE - m.len {
        Err(BufError::CapacityExceeded)
    } else {
        Ok(())
    }
}

/// The buffer after `grow(req)`: unchanged where the room is there already;
/// compacted where the spare bytes before the window make enough room; in the
/// overflow state where the request passes the size limit; else reallocated
/// to `grown_size` and compacted.
pub open spec fn grow_model(m: BufModel, req: nat) -> BufModel {
    if !m.writable() || req <= m.capacity - m.len {
        m
    } else if req <= m.offset + m.capacity - m.len {
        BufModel {
            storage: slide(m.storage, m.offset, m.len),
            offset: 0,
            capacity: m.capacity + m.offset,
            ..m
        }
    } else if req > MAX_SIZE - m.len {
        BufModel { error: true, ..m }
    } else {
        let n = grown_size(m.capacity, m.len, req);
        BufModel {
            storage: slide(
                m.storage + Seq::new((n + 1 - m.storage.len()) as nat, |i: int| 0u8),
                m.offset,
                m.len,
            ),
            offset: 0,
            capacity: n,
            ..m
        }
    }
}

/// `s` with `p` written over it from position `at` on.
pub open spec fn splice(s: Seq<u8>, at: nat, p: Seq<u8>) -> Seq<u8> {
    s.subrange(0, at as int) + p + s.subrange((at + p.len()) as int, s.len() as int)
}

/// The bytes of an optional slice.
pub open spec fn view_of(mem: Option<&[u8]>) -> Option<Seq<u8>> {
    match mem {
        Some(s) => Some(s@),
        None => None,
    }
}

/// The buffer with `bytes` appended after its content, where there is room.
pub open spec fn append_model(m: BufModel, bytes: Seq<u8>) -> BufModel {
    BufModel {
        storage: splice(m.storage, m.offset + m.len, bytes.push(0u8)),
        len: m.len + bytes.len(),
        ..m
    }
}

/// What `add` reports for `len` bytes at `mem` (`None`: no memory was given).
pub open spec fn add_result(m: BufModel, mem: Option<Seq<u8>>, len: nat) -> Result<(), BufError> {
    if !m.writable() {
        Err(BufError::NotWritable)
    } else if mem is None && len > 0 {
        Err(BufError::InvalidArgument)
    } else if len == 0 {
        Ok(())
    } else {
        grow_result(m, len)
    }
}

/// The buffer after `add`: grown as `grow(len)` would, then the bytes appended.
pub open spec fn add_model(m: BufModel, mem: Option<Seq<u8>>, len: nat) -> BufModel {
    if !m.writable() || mem is None || len == 0 {
        m
    } else {
        let g = grow_model(m, len);
        if g.error {
            g
        } else {
            append_model(g, mem->0)
        }
    }
}

/// What `add_len(n)` reports.
pub open spec fn add_len_result(m: BufModel, n: nat) -> Result<(), BufError> {
    if !m.writable() {
        Err(BufError::NotWritable)
    } else if n > m.capacity - m.len {
        Err(BufError::CapacityExceeded)
    } else {
        Ok(())
    }
}

/// The buffer after `add_len(n)`: `n` more bytes of the room count as content.
pub open spec fn add_len_model(m: BufModel, n: nat) -> BufModel {
    if add_len_result(m, n) is Ok {
        BufModel {
            storage: m.storage.update((m.offset + m.len + n) as int, 0u8),
            len: m.len + n,
            ..m
        }
    } else {
        m
    }
}

/// `shrink(n)` drops the first `n` bytes of the content by sliding the window.
pub open spec fn shrink_ok(m: BufModel, n: nat) -> bool {
    m.writable() && 0 < n <= m.len
}

pub open spec fn shrink_model(m: BufModel, n: nat) -> BufModel {
    if shrink_ok(m, n) {
        BufModel {
            offset: m.offset + n,
            len: (m.len - n) as nat,
            capacity: (m.capacity - n) as nat,
            ..m
        }
    } else {
        m
    }
}

/// A buffer after its content was detached: empty, with no room.
pub open spec fn detached_model(m: BufModel) -> BufModel {
    BufModel { storage: seq![0u8], offset: 0, len: 0, capacity: 0, ..m }
}

/// A static buffer over `size` bytes at `addr`.
pub open spec fn static_model(addr: usize, size: nat) -> BufModel {
    BufModel {
        storage: Seq::empty(),
        offset: 0,
        len: size,
        capacity: size,
        error: false,
        static_addr: Some(addr),
    }
}

/// An owned buffer holding a copy of `bytes`, with no room to spare.
pub open spec fn owned_model(bytes: Seq<u8>) -> BufModel {
    BufModel {
        storage: bytes.push(0u8),
        offset: 0,
        len: bytes.len(),
        capacity: bytes.len(),
        error: false,
        static_addr: None,
    }
}

/// Where the content of a buffer is, for a caller that reads it in place.
pub enum BufContent<'a> {
    /// The buffer is in error: no content can be read.
    Null,
    /// A static buffer: the caller's memory at this address.
    Static(usize),
    /// An owned buffer: its storage from the start of the window on, that is
    /// the content, its terminator and the room after it.
    Owned(&'a [u8]),
}

/// An owned buffer with `size` bytes of capacity whose content is `bytes`,
/// followed by zeros.
pub open spec fn filled_model(bytes: Seq<u8>, size: nat) -> BufModel {
    BufModel {
        storage: bytes + Seq::new((size + 1 - bytes.len()) as nat, |i: int| 0u8),
        offset: 0,
        len: bytes.len(),
        capacity: size,
        error: false,
        static_addr: None,
    }
}

/// Moves the `len + 1` bytes at `offset` to the start of `v`.
pub(crate) fn slide_vec(v: &mut Vec<u8>, offset: usize, len: usize)
    requires
        offset + len < old(v)@.len(),
    ensures
        final(v)@ == slide(old(v)@, offset as nat, len as nat),
{
    let ghost orig = v@;
    assert(orig.len() == v.len());
    let n = len + 1;
    let mut i: usize = 0;
    while i < n
        invariant
            n == len + 1,
            offset + n <= orig.len() <= usize::MAX,
            v@.len() == orig.len(),
            orig == old(v)@,
            i <= n,
            forall|k: int|
                0 <= k < orig.len() ==> v@[k] == (if k < i {
                    orig[offset + k]
                } else {
                    orig[k]
                }),
        decreases n - i,
    {
        let b = v[offset + i];
        v.set(i, b);
        i = i + 1;
    }
    assert(v@ =~= slide(orig, offset as nat, len as nat));
}

/// A growable byte buffer with sticky error flags and a sliding content window.
#[derive(Debug)]
pub struct XmlBuf {
    content: Vec<u8>,
    use_: usize,
    size: usize,
    max_size: usize,
    flags: u32,
    content_offset: usize,
    static_mem: Option<usize>,
}

impl View for XmlBuf {
    type V = BufModel;

    closed spec fn view(&self) -> BufModel {
        BufModel {
            storage: self.content@,
            offset: self.content_offset as nat,
            len: self.use_ as nat,
            capacity: self.size as nat,
            error: self.flags & 3 != 0,
            static_addr: self.static_mem,
        }
    }
}

proof fn lemma_flags_overflow(f: u32)
    ensures
        (f | 2) & 3 != 0,
        ((f | 2) & 4 != 0) == (f & 4 != 0),
{
    assert((f | 2) & 3 != 0) by (bit_vector);
    assert(((f | 2) & 4 != 0) == (f & 4 != 0)) by (bit_vector);
}

proof fn lemma_flags_oom(f: u32)
    ensures
        (f | 1) & 3 != 0,
        ((f | 1) & 4 != 0) == (f & 4 != 0),
{
    assert((f | 1) & 3 != 0) by (bit_vector);
    assert(((f | 1) & 4 != 0) == (f & 4 != 0)) by (bit_vector);
}

proof fn lemma_flags_constants()
    ensures
        0u32 & 3 == 0,
        0u32 & 4 == 0,
        4u32 & 3 == 0,
        4u32 & 4 != 0,
        BUF_FLAG_OOM | BUF_FLAG_OVERFLOW == 3,
{
    assert(0u32 & 3 == 0) by (bit_vector);
    assert(0u32 & 4 == 0) by (bit_vector);
    assert(4u32 & 3 == 0) by (bit_vector);
    assert(4u32 & 4 != 0) by (bit_vector);
    assert(1u32 | 2u32 == 3) by (bit_vector);
}

impl XmlBuf {
    /// The invariant that every operation keeps.
    pub closed spec fn wf(&self) -> bool {
        &&& self.max_size == MAX_SIZE
        &&& self.content@.len() <= usize::MAX
        &&& (self.flags & 4 != 0) == (self.static_mem is Some)
        &&& self@.valid()
    }

    /// What `wf` tells a caller about the model.
    pub proof fn lemma_valid(&self)
        requires
            self.wf(),
        ensures
            self@.valid(),
    {
    }

    /// An empty buffer with room for `size` bytes; refuses `usize::MAX`, for which
    /// the terminator slot cannot be counted.
    pub fn new(size: usize) -> (r: Result<XmlBuf, BufError>)
        ensures
            size == usize::MAX <==> r is Err,
            r is Err ==> r->Err_0 == BufError::InvalidArgument,
            r matches Ok(b) ==> b.wf() && b@ == new_model(size as nat),
    {
        if size == usize::MAX {
            return Err(BufError::InvalidArgument);
        }
        let mut content: Vec<u8> = Vec::with_capacity(size + 1);
        content.resize(size + 1, 0);
        assert(content@.len() == content.len());
        proof {
            lemma_flags_constants();
        }
        let b = XmlBuf {
            content,
            use_: 0,
            size,
            max_size: MAX_SIZE,
            flags: 0,
            content_offset: 0,
            static_mem: None,
        };
        assert(b@.storage =~= new_model(size as nat).storage);
        Ok(b)
    }

    pub fn is_error(&self) -> (r: bool)
        ensures
            r == self@.error,
    {
        proof {
            lemma_flags_constants();
        }
        (self.flags & (BUF_FLAG_OOM | BUF_FLAG_OVERFLOW)) != 0
    }

    pub fn is_static(&self) -> (r: bool)
        requires
            self.wf(),
        ensures
            r == self@.is_static(),
    {
        (self.flags & BUF_FLAG_STATIC) != 0
    }

    /// Puts the buffer in the overflow error state, unless it is in error already.
    pub fn set_overflow(&mut self)
        requires
            old(self).wf(),
        ensures
            final(self).wf(),
            final(self)@ == (BufModel { error: true, ..old(self)@ }),
    {
        if !self.is_error() {
            proof {
                lemma_flags_overflow(self.flags);
            }
            self.flags = self.flags | BUF_FLAG_OVERFLOW;
        }
    }

    /// Records that an allocation made for a writable buffer failed: the
    /// buffer enters the out-of-memory state for good. A static buffer or one
    /// in error is left as it is.
    pub fn set_oom(&mut self)
        requires
            old(self).wf(),
        ensures
            final(self).wf(),
            final(self)@ == (if old(self)@.writable() {
                BufModel { error: true, ..old(self)@ }
            } else {
                old(self)@
            }),
    {
        if !self.is_error() && !self.is_static() {
            proof {
                lemma_flags_oom(self.flags);
            }
            self.flags = self.flags | BUF_FLAG_OOM;
        }
    }

    /// Drops the content and slides the window back to the start of the storage.
    /// Does nothing to a static buffer or one in error.
    pub fn empty(&mut self)
        requires
            old(self).wf(),
        ensures
            final(self).wf(),
            final(self)@ == empty_model(old(self)@),
    {
        if self.is_error() || self.is_static() {
            return;
        }
        assert(self.content@.len() == self.content.len());
        self.use_ = 0;
        self.size = self.size + self.content_offset;
        self.content_offset = 0;
        self.content.set(0, 0);
    }

    /// Moves the content and its terminator to the start of the storage.
    fn slide_window(&mut self)
        requires
            old(self).content_offset + old(self).use_ < old(self).content@.len(),
        ensures
            final(self).content@ == slide(
                old(self).content@,
                old(self).content_offset as nat,
                old(self).use_ as nat,
            ),
            final(self).use_ == old(self).use_,
            final(self).size == old(self).size,
            final(self).max_size == old(self).max_size,
            final(self).flags == old(self).flags,
            final(self).content_offset == old(self).content_offset,
            final(self).static_mem == old(self).static_mem,
    {
        slide_vec(&mut self.content, self.content_offset, self.use_);
    }

    /// Makes room for `len` more bytes after the content. Fails, and changes
    /// nothing, on a static buffer or one in error; fails, and enters the
    /// overflow state for good, where `use + len` would pass the size limit.
    pub fn grow(&mut self, len: usize) -> (r: Result<(), BufError>)
        requires
            old(self).wf(),
        ensures
            final(self).wf(),
            final(self)@ == grow_model(old(self)@, len as nat),
            r == grow_result(old(self)@, len as nat),
    {
        if self.is_error() || self.is_static() {
            return Err(BufError::NotWritable);
        }
        assert(self.content@.len() == self.content.len());
        if len <= self.size - self.use_ {
            return Ok(());
        }
        if len <= self.content_offset + self.size - self.use_ {
            self.slide_window();
            self.size = self.size + self.content_offset;
            self.content_offset = 0;
            return Ok(());
        }
        if len > self.max_size - self.use_ {
            self.set_overflow();
            return Err(BufError::CapacityExceeded);
        }
        let new_size = if self.size > len {
            if self.size <= self.max_size / 2 {
                self.size * 2
            } else {
                self.max_size
            }
        } else {
            let size = self.use_ + len;
            if size <= self.max_size - GROW_SLACK {
                size + GROW_SLACK
            } else {
                size
            }
        };
        let ghost before = self.content@;
        self.content.resize(new_size + 1, 0);
        assert(self.content@ =~= before + Seq::new(
            (new_size + 1 - before.len()) as nat,
            |i: int| 0u8,
        ));
        if self.content_offset > 0 {
            self.slide_window();
            self.content_offset = 0;
        } else {
            assert(self.content@ =~= slide(self.content@, 0, self.use_ as nat));
        }
        self.size = new_size;
        Ok(())
    }

    /// A buffer over the caller's memory `mem` of `size` bytes at `addr`. An
    /// owned buffer copies the bytes; a static one keeps only the address and
    /// demands that the byte after them, the last of `mem`, is a zero.
    pub fn new_from_mem(mem: Option<&[u8]>, addr: usize, size: usize, is_static: bool) -> (r:
        Result<XmlBuf, BufError>)
        requires
            mem matches Some(s) ==> s@.len() == (if is_static {
                size + 1
            } else {
                size as int
            }),
        ensures
            r is Err <==> mem is None || (is_static && mem->0@[size as int] != 0),
            r is Err ==> r->Err_0 == BufError::InvalidArgument,
            r matches Ok(b) ==> b.wf() && b@ == (if is_static {
                static_model(addr, size as nat)
            } else {
                owned_model(mem->0@)
            }),
    {
        proof {
            lemma_flags_constants();
        }
        let m = match mem {
            None => {
                return Err(BufError::InvalidArgument);
            },
            Some(m) => m,
        };
        if is_static {
            if m[size] != 0 {
                return Err(BufError::InvalidArgument);
            }
            Ok(XmlBuf {
                content: Vec::new(),
                use_: size,
                size,
                max_size: MAX_SIZE,
                flags: BUF_FLAG_STATIC,
                content_offset: 0,
                static_mem: Some(addr),
            })
        } else {
            let mut content: Vec<u8> = Vec::new();
            content.extend_from_slice(m);
            content.push(0);
            assert(content@.len() == content.len());
            let b = XmlBuf {
                content,
                use_: size,
                size,
                max_size: MAX_SIZE,
                flags: 0,
                content_offset: 0,
                static_mem: None,
            };
            assert(b@.storage =~= m@.push(0u8));
            Ok(b)
        }
    }

    /// Appends `len` bytes read from `mem`, growing the buffer first where the
    /// room is short. `None` stands for a caller that gave no memory.
    pub fn add(&mut self, mem: Option<&[u8]>, len: usize) -> (r: Result<(), BufError>)
        requires
            old(self).wf(),
            mem matches Some(s) ==> s@.len() == len,
        ensures
            final(self).wf(),
            final(self)@ == add_model(old(self)@, view_of(mem), len as nat),
            r == add_result(old(self)@, view_of(mem), len as nat),
    {
        if self.is_error() || self.is_static() {
            return Err(BufError::NotWritable);
        }
        let src = match mem {
            None => {
                if len > 0 {
                    return Err(BufError::InvalidArgument);
                }
                return Ok(());
            },
            Some(s) => s,
        };
        if len == 0 {
            return Ok(());
        }
        if len > self.size - self.use_ {
            match self.grow(len) {
                Ok(()) => {},
                Err(e) => {
                    return Err(e);
                },
            }
        }
        let ghost g = self@;
        let ghost flags0 = self.flags;
        let ghost static0 = self.static_mem;
        let start = self.content_offset + self.use_;
        let mut i: usize = 0;
        while i < len
            invariant
                g.valid(),
                !g.is_static(),
                self.max_size == MAX_SIZE,
                self.flags == flags0,
                self.static_mem == static0,
                (flags0 & 4 != 0) == (static0 is Some),
                g.storage.len() <= usize::MAX,
                self@ == (BufModel { storage: self@.storage, ..g }),
                self@.storage.len() == g.storage.len(),
                start == g.offset + g.len,
                start + len < g.storage.len(),
                src@.len() == len,
                i <= len,
                forall|k: int|
                    0 <= k < g.storage.len() ==> self@.storage[k] == (if start <= k < start + i {
                        src@[k - start]
                    } else {
                        g.storage[k]
                    }),
            decreases len - i,
        {
            self.content.set(start + i, src[i]);
            i = i + 1;
        }
        self.use_ = self.use_ + len;
        self.content.set(start + len, 0);
        assert(self@.storage =~= splice(g.storage, (g.offset + g.len) as nat, src@.push(0u8)));
        Ok(())
    }

    /// Appends the bytes of a string, `s`, read up to its terminator; a missing
    /// string adds nothing.
    pub fn cat(&mut self, s: Option<&[u8]>) -> (r: Result<(), BufError>)
        requires
            old(self).wf(),
        ensures
            final(self).wf(),
            s is None ==> r is Ok && final(self)@ == old(self)@,
            s matches Some(b) ==> r == add_result(old(self)@, Some(b@), b@.len()) && final(self)@
                == add_model(old(self)@, Some(b@), b@.len()),
    {
        match s {
            None => Ok(()),
            Some(b) => self.add(Some(b), b.len()),
        }
    }

    /// Counts `len` more bytes of the room as content: bytes that the caller
    /// wrote there itself.
    pub fn add_len(&mut self, len: usize) -> (r: Result<(), BufError>)
        requires
            old(self).wf(),
        ensures
            final(self).wf(),
            final(self)@ == add_len_model(old(self)@, len as nat),
            r == add_len_result(old(self)@, len as nat),
    {
        if self.is_error() || self.is_static() {
            return Err(BufError::NotWritable);
        }
        if len > self.size - self.use_ {
            return Err(BufError::CapacityExceeded);
        }
        self.use_ = self.use_ + len;
        self.content.set(self.content_offset + self.use_, 0);
        Ok(())
    }

    /// Drops the first `len` bytes of the content by sliding the window;
    /// returns how many bytes went, 0 where none could.
    pub fn shrink(&mut self, len: usize) -> (r: usize)
        requires
            old(self).wf(),
        ensures
            final(self).wf(),
            final(self)@ == shrink_model(old(self)@, len as nat),
            r == (if shrink_ok(old(self)@, len as nat) {
                len
            } else {
                0
            }),
    {
        if self.is_error() || self.is_static() || len == 0 || len > self.use_ {
            return 0;
        }
        self.use_ = self.use_ - len;
        self.content_offset = self.content_offset + len;
        self.size = self.size - len;
        len
    }

    /// Hands the content and its terminator out and leaves the buffer empty.
    pub fn detach(&mut self) -> (r: Result<Vec<u8>, BufError>)
        requires
            old(self).wf(),
        ensures
            final(self).wf(),
            old(self)@.writable() ==> r is Ok && final(self)@ == detached_model(old(self)@),
            !old(self)@.writable() ==> r == Err::<Vec<u8>, BufError>(BufError::NotWritable)
                && final(self)@ == old(self)@,
            r matches Ok(v) ==> v@ == old(self)@.data().push(0u8),
    {
        if self.is_error() || self.is_static() {
            return Err(BufError::NotWritable);
        }
        let ghost m = self@;
        let n = self.use_ + 1;
        let start = self.content_offset;
        let mut out: Vec<u8> = Vec::with_capacity(n);
        let mut i: usize = 0;
        while i < n
            invariant
                self@ == m,
                m.valid(),
                m.storage.len() <= usize::MAX,
                !m.is_static(),
                n == m.len + 1,
                start == m.offset,
                i <= n,
                out@ == m.storage.subrange(start as int, start + i),
            decreases n - i,
        {
            out.push(self.content[start + i]);
            i = i + 1;
            assert(out@ =~= m.storage.subrange(start as int, start + i));
        }
        assert(out@ =~= m.data().push(0u8));
        self.content = Vec::new();
        self.content.push(0);
        assert(self.content@.len() == self.content.len());
        self.use_ = 0;
        self.size = 0;
        self.content_offset = 0;
        assert(self@.storage =~= seq![0u8]);
        Ok(out)
    }

    /// Where the content can be read: nothing in an error state, the caller's
    /// address for a static buffer, else the storage from the window on.
    pub fn content_ptr(&self) -> (r: BufContent<'_>)
        requires
            self.wf(),
        ensures
            self@.error ==> r is Null,
            !self@.error && self@.is_static() ==> r == BufContent::Static(self@.static_addr->0),
            !self@.error && !self@.is_static() ==> (r matches BufContent::Owned(s) && s@
                == self@.storage.subrange(self@.offset as int, self@.storage.len() as int)),
    {
        if self.is_error() {
            return BufContent::Null;
        }
        match self.static_mem {
            Some(addr) => BufContent::Static(addr),
            None => {
                let all = self.content.as_slice();
                BufContent::Owned(&all[self.content_offset..all.len()])
            },
        }
    }

    /// The room after the content, starting at the terminator: where a caller
    /// writes bytes before it counts them in with `add_len`. Nothing for a
    /// static buffer or one in error.
    pub fn end(&self) -> (r: Option<&[u8]>)
        requires
            self.wf(),
        ensures
            !self@.writable() ==> r is None,
            self@.writable() ==> (r matches Some(s) && s@ == self@.storage.subrange(
                (self@.offset + self@.len) as int,
                self@.storage.len() as int,
            )),
    {
        if self.is_error() || self.is_static() {
            return None;
        }
        let all = self.content.as_slice();
        Some(&all[self.content_offset + self.use_..all.len()])
    }

    /// The logical length.
    pub fn used(&self) -> (r: usize)
        ensures
            r == self@.len,
    {
        self.use_
    }

    /// An owned buffer with room for `size` bytes that holds a copy of `bytes`.
    pub fn with_content(bytes: &[u8], size: usize) -> (r: XmlBuf)
        requires
            bytes@.len() <= size < usize::MAX,
        ensures
            r.wf(),
            r@ == filled_model(bytes@, size as nat),
    {
        let mut content: Vec<u8> = Vec::new();
        content.extend_from_slice(bytes);
        assert(content@ =~= bytes@);
        content.resize(size + 1, 0);
        assert(content@.len() == content.len());
        assert(content@ =~= bytes@ + Seq::new((size + 1 - bytes@.len()) as nat, |i: int| 0u8));
        proof {
            lemma_flags_constants();
        }
        XmlBuf {
            content,
            use_: bytes.len(),
            size,
            max_size: MAX_SIZE,
            flags: 0,
            content_offset: 0,
            static_mem: None,
        }
    }

    /// Gives up the owned storage, for a caller that keeps the window itself.
    pub fn into_storage(self) -> (r: Vec<u8>)
        ensures
            r@ == self@.storage,
    {
        self.content
    }

    /// Where the content window starts in the storage.
    pub fn offset(&self) -> (r: usize)
        ensures
            r == self@.offset,
    {
        self.content_offset
    }

    /// The length of the whole storage.
    pub fn storage_len(&self) -> (r: usize)
        ensures
            r == self@.storage.len(),
    {
        self.content.len()
    }

    /// The capacity of the window.
    pub fn capacity(&self) -> (r: usize)
        ensures
            r == self@.capacity,
    {
        self.size
    }

    /// Room left after the content; 0 in an error state.
    pub fn avail(&self) -> (r: usize)
        requires
            self.wf(),
        ensures
            r == self@.avail(),
    {
        if self.is_error() {
            return 0;
        }
        self.size - self.use_
    }

    pub fn is_empty(&self) -> (r: bool)
        ensures
            r == (self@.len == 0),
    {
        self.use_ == 0
    }
}

} // verus!
