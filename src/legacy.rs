//! The legacy buffer record: content in one allocation, possibly starting
//! after its base, with 32-bit length and capacity fields.
#![allow(non_snake_case)]
use vstd::prelude::*;
use crate::buf::{slide, slide_vec, splice};

verus! {

/// Allocation mode in which the content may start after the allocation base.
pub const XML_BUFFER_ALLOC_IO: i32 = 1;

/// The allocation scheme that the scheme getters always report.
pub const XML_BUFFER_ALLOC_EXACT: i32 = 1;

/// The largest size a record holds: the largest signed 32-bit value.
pub const LEGACY_MAX: u32 = 2147483647;

/// The capacity of a record made by `xmlBufferCreate`.
pub const DEFAULT_BUFFER_SIZE: u32 = 256;

/// A legacy buffer record.
pub struct XmlBuffer {
    /// The allocation; `None` where the record holds no storage.
    pub mem: Option<Vec<u8>>,
    /// Where the content starts in the allocation.
    pub start: usize,
    /// The logical length.
    pub use_: u32,
    /// The capacity from `start` on, terminator slot included.
    pub size: u32,
    /// The allocation-mode tag.
    pub alloc: i32,
}

/// The abstract state of an [`XmlBuffer`].
pub struct LegacyModel {
    pub mem: Option<Seq<u8>>,
    pub start: nat,
    pub used: nat,
    pub size: nat,
    pub alloc: i32,
}

impl View for XmlBuffer {
    type V = LegacyModel;

    open spec fn view(&self) -> LegacyModel {
        LegacyModel {
            mem: match self.mem {
                Some(v) => Some(v@),
                None => None,
            },
            start: self.start as nat,
            used: self.use_ as nat,
            size: self.size as nat,
            alloc: self.alloc,
        }
    }
}

impl LegacyModel {
    /// The shape that every record keeps.
    pub open spec fn valid(self) -> bool {
        &&& self.size <= LEGACY_MAX
        &&& self.alloc != XML_BUFFER_ALLOC_IO ==> self.start == 0
        &&& match self.mem {
            None => self.used == 0 && self.size == 0 && self.start == 0,
            Some(m) => self.used < self.size && self.start + self.size <= m.len() <= usize::MAX
                && m[(self.start + self.used) as int] == 0,
        }
    }

    /// The allocation's bytes; none where there is no storage.
    pub open spec fn bytes(self) -> Seq<u8> {
        match self.mem {
            Some(m) => m,
            None => Seq::empty(),
        }
    }

    /// The logical content.
    pub open spec fn content(self) -> Seq<u8> {
        self.bytes().subrange(self.start as int, (self.start + self.used) as int)
    }

    /// The window from the content start to the end of the capacity.
    pub open spec fn window(self) -> Seq<u8> {
        self.bytes().subrange(self.start as int, (self.start + self.size) as int)
    }
}

/// The record after `bytes` were appended with the non-growing `xmlBufferAdd`:
/// only where the content, the bytes and a terminator fit in the capacity.
pub open spec fn append_model(m: LegacyModel, bytes: Seq<u8>) -> LegacyModel {
    if bytes.len() == 0 || m.used + bytes.len() >= m.size {
        m
    } else {
        LegacyModel {
            mem: Some(splice(m.bytes(), m.start + m.used, bytes.push(0u8))),
            used: m.used + bytes.len(),
            ..m
        }
    }
}

/// What `xmlBufferAdd` of `bytes` reports.
pub open spec fn append_status(m: LegacyModel, bytes: Seq<u8>) -> int {
    if bytes.len() == 0 || m.used + bytes.len() < m.size {
        0
    } else {
        -1
    }
}

/// The bytes that a (pointer, length) pair stands for: the first `len` bytes,
/// or for a negative `len` the string up to its terminator.
pub open spec fn resolved(s: Seq<u8>, len: i32) -> bool {
    len >= 0 ==> s.len() == len
}

/// The size that `xmlBufferGrow(len)` asks for.
pub open spec fn grow_size(m: LegacyModel, len: nat) -> nat {
    if m.size > len {
        if m.size <= LEGACY_MAX / 2 {
            m.size * 2
        } else {
            LEGACY_MAX as nat
        }
    } else {
        m.used + len + 1
    }
}

/// `xmlBufferGrow(len)` has room already.
pub open spec fn has_room(m: LegacyModel, len: nat) -> bool {
    len < m.size - m.used
}

/// What `xmlBufferGrow(len)` reports: 0 where the room is there, -1 where the
/// size would pass `LEGACY_MAX`, else the room after the new terminator slot.
pub open spec fn grow_status(m: LegacyModel, len: nat) -> int {
    if has_room(m, len) {
        0
    } else if grow_size(m, len) > LEGACY_MAX {
        -1
    } else {
        grow_size(m, len) - m.used - 1
    }
}

/// The record after `xmlBufferGrow(len)`: reallocated to `grow_size` plus the
/// terminator slot, with the window moved to the base of the allocation.
pub open spec fn grow_model(m: LegacyModel, len: nat) -> LegacyModel {
    if has_room(m, len) || grow_size(m, len) > LEGACY_MAX {
        m
    } else {
        let n = grow_size(m, len);
        LegacyModel {
            mem: Some(m.window() + Seq::new((n + 1 - m.size) as nat, |i: int| 0u8)),
            start: 0,
            size: n,
            ..m
        }
    }
}

/// Writes `src` into `v` from position `at` on.
fn write_at(v: &mut Vec<u8>, at: usize, src: &[u8])
    requires
        at + src@.len() <= old(v)@.len(),
    ensures
        final(v)@ == splice(old(v)@, at as nat, src@),
{
    assert(v@.len() == v.len());
    let mut i: usize = 0;
    while i < src.len()
        invariant
            at + src@.len() <= old(v)@.len() <= usize::MAX,
            v@.len() == old(v)@.len(),
            i <= src@.len(),
            forall|k: int|
                0 <= k < v@.len() ==> v@[k] == (if at <= k < at + i {
                    src@[k - at]
                } else {
                    old(v)@[k]
                }),
        decreases src@.len() - i,
    {
        v.set(at + i, src[i]);
        i = i + 1;
    }
    assert(v@ =~= splice(old(v)@, at as nat, src@));
}

/// Appends `len` bytes of `s` where they and a terminator fit; 0, or -1 where
/// `s` is missing or the room is short. This form never grows the record.
pub fn xmlBufferAdd(buffer: &mut XmlBuffer, s: Option<&[u8]>, len: i32) -> (r: i32)
    requires
        old(buffer)@.valid(),
        s matches Some(b) ==> resolved(b@, len),
    ensures
        final(buffer)@.valid(),
        s is None ==> r == -1 && final(buffer)@ == old(buffer)@,
        s matches Some(b) ==> r == append_status(old(buffer)@, b@) && final(buffer)@
            == append_model(old(buffer)@, b@),
{
    let src = match s {
        None => {
            return -1;
        },
        Some(b) => b,
    };
    let n = src.len();
    if n == 0 {
        return 0;
    }
    if n >= buffer.size as usize || buffer.use_ as usize + n >= buffer.size as usize {
        return -1;
    }
    let at = buffer.start + buffer.use_ as usize;
    let mut v = buffer.mem.take().unwrap();
    let mut piece: Vec<u8> = Vec::new();
    piece.extend_from_slice(src);
    piece.push(0);
    assert(piece@ =~= src@.push(0u8));
    write_at(&mut v, at, piece.as_slice());
    buffer.mem = Some(v);
    buffer.use_ = buffer.use_ + n as u32;
    0
}

/// Appends a string, read up to its terminator.
pub fn xmlBufferCat(buffer: &mut XmlBuffer, s: Option<&[u8]>) -> (r: i32)
    requires
        old(buffer)@.valid(),
    ensures
        final(buffer)@.valid(),
        s is None ==> r == -1 && final(buffer)@ == old(buffer)@,
        s matches Some(b) ==> r == append_status(old(buffer)@, b@) && final(buffer)@
            == append_model(old(buffer)@, b@),
{
    xmlBufferAdd(buffer, s, -1)
}

/// Appends a string, read up to its terminator.
pub fn xmlBufferCCat(buffer: &mut XmlBuffer, s: Option<&[u8]>) -> (r: i32)
    requires
        old(buffer)@.valid(),
    ensures
        final(buffer)@.valid(),
        s is None ==> r == -1 && final(buffer)@ == old(buffer)@,
        s matches Some(b) ==> r == append_status(old(buffer)@, b@) && final(buffer)@
            == append_model(old(buffer)@, b@),
{
    xmlBufferAdd(buffer, s, -1)
}

/// Appends a string, read up to its terminator, where it fits.
pub fn xmlBufferWriteCHAR(buffer: &mut XmlBuffer, s: Option<&[u8]>)
    requires
        old(buffer)@.valid(),
    ensures
        final(buffer)@.valid(),
        s is None ==> final(buffer)@ == old(buffer)@,
        s matches Some(b) ==> final(buffer)@ == append_model(old(buffer)@, b@),
{
    xmlBufferAdd(buffer, s, -1);
}

/// Appends a string, read up to its terminator, where it fits.
pub fn xmlBufferWriteChar(buffer: &mut XmlBuffer, s: Option<&[u8]>)
    requires
        old(buffer)@.valid(),
    ensures
        final(buffer)@.valid(),
        s is None ==> final(buffer)@ == old(buffer)@,
        s matches Some(b) ==> final(buffer)@ == append_model(old(buffer)@, b@),
{
    xmlBufferAdd(buffer, s, -1);
}

/// A record with room for `DEFAULT_BUFFER_SIZE` bytes, terminator included.
pub fn xmlBufferCreate() -> (r: XmlBuffer)
    ensures
        r@.valid(),
        r@.mem == Some(Seq::new(DEFAULT_BUFFER_SIZE as nat, |i: int| 0u8)),
        r@.start == 0 && r@.used == 0 && r@.size == DEFAULT_BUFFER_SIZE,
        r@.alloc == XML_BUFFER_ALLOC_IO,
{
    let mut v: Vec<u8> = Vec::new();
    v.resize(DEFAULT_BUFFER_SIZE as usize, 0);
    assert(v@.len() == v.len());
    assert(v@ =~= Seq::new(DEFAULT_BUFFER_SIZE as nat, |i: int| 0u8));
    XmlBuffer {
        mem: Some(v),
        start: 0,
        use_: 0,
        size: DEFAULT_BUFFER_SIZE,
        alloc: XML_BUFFER_ALLOC_IO,
    }
}

/// A record with room for `size` bytes and a terminator, all zero; nothing
/// where `size` reaches `LEGACY_MAX`.
pub fn xmlBufferCreateSize(size: usize) -> (r: Option<XmlBuffer>)
    ensures
        r is None <==> size >= LEGACY_MAX,
        r matches Some(b) ==> b@.valid() && b@.start == 0 && b@.used == 0 && b@.alloc
            == XML_BUFFER_ALLOC_IO && b@.size == size + 1 && b@.mem == Some(
            Seq::new((size + 1) as nat, |i: int| 0u8),
        ),
{
    if size >= LEGACY_MAX as usize {
        return None;
    }
    let mut v: Vec<u8> = Vec::new();
    v.resize(size + 1, 0);
    assert(v@.len() == v.len());
    assert(v@ =~= Seq::new((size + 1) as nat, |i: int| 0u8));
    Some(
        XmlBuffer {
            mem: Some(v),
            start: 0,
            use_: 0,
            size: (size + 1) as u32,
            alloc: XML_BUFFER_ALLOC_IO,
        },
    )
}

/// A record holding a copy of the `size` bytes of `mem`, with exactly the
/// room they need; nothing where `size` reaches `LEGACY_MAX`.
pub fn xmlBufferCreateStatic(mem: Option<&[u8]>, size: usize) -> (r: Option<XmlBuffer>)
    requires
        mem matches Some(b) ==> b@.len() == size,
    ensures
        r is None <==> size >= LEGACY_MAX,
        r matches Some(b) ==> b@.valid() && b@.start == 0 && b@.alloc == XML_BUFFER_ALLOC_IO
            && b@.size == size + 1 && (mem matches Some(m) ==> b@.content() == m@ && b@.bytes()
            == m@.push(0u8)) && (mem is None ==> b@.used == 0 && b@.bytes() == Seq::new(
            (size + 1) as nat,
            |i: int| 0u8,
        )),
{
    let mut b = match xmlBufferCreateSize(size) {
        None => {
            return None;
        },
        Some(b) => b,
    };
    xmlBufferAdd(&mut b, mem, size as i32);
    proof {
        if mem is Some {
            let m = mem->0@;
            assert(b@.bytes() =~= m.push(0u8));
            assert(b@.content() =~= m);
        }
    }
    Some(b)
}

/// Drops the content; in the IO mode the window also moves back to the base.
pub fn xmlBufferEmpty(buffer: &mut XmlBuffer)
    requires
        old(buffer)@.valid(),
    ensures
        final(buffer)@.valid(),
        old(buffer)@.mem is None ==> final(buffer)@ == old(buffer)@,
        old(buffer)@.mem is Some ==> final(buffer)@ == (LegacyModel {
            mem: Some(old(buffer)@.bytes().update(0, 0u8)),
            start: 0,
            used: 0,
            size: if old(buffer).alloc == XML_BUFFER_ALLOC_IO {
                if old(buffer)@.size + old(buffer)@.start <= LEGACY_MAX {
                    old(buffer)@.size + old(buffer)@.start
                } else {
                    LEGACY_MAX as nat
                }
            } else {
                old(buffer)@.size
            },
            ..old(buffer)@
        }),
{
    if buffer.mem.is_none() {
        return ;
    }
    buffer.use_ = 0;
    if buffer.alloc == XML_BUFFER_ALLOC_IO {
        if buffer.start <= (LEGACY_MAX - buffer.size) as usize {
            buffer.size = buffer.size + buffer.start as u32;
        } else {
            buffer.size = LEGACY_MAX;
        }
        buffer.start = 0;
    }
    let mut v = buffer.mem.take().unwrap();
    v.set(0, 0);
    buffer.mem = Some(v);
}

/// The content, without its terminator; nothing where there is no storage.
pub fn xmlBufferContent(buffer: &XmlBuffer) -> (r: Option<&[u8]>)
    requires
        buffer@.valid(),
    ensures
        buffer@.mem is None ==> r is None,
        buffer@.mem is Some ==> (r matches Some(s) && s@ == buffer@.content()),
{
    match &buffer.mem {
        None => None,
        Some(v) => {
            let all = v.as_slice();
            Some(&all[buffer.start..buffer.start + buffer.use_ as usize])
        },
    }
}

/// The logical length.
pub fn xmlBufferLength(buffer: &XmlBuffer) -> (r: i32)
    requires
        buffer@.valid(),
    ensures
        r == buffer@.used,
{
    buffer.use_ as i32
}

/// Allocation schemes are gone: setting one does nothing.
pub fn xmlSetBufferAllocationScheme(_scheme: i32) {
}

/// Allocation schemes are gone: the scheme is always the exact one.
pub fn xmlGetBufferAllocationScheme() -> (r: i32)
    ensures
        r == XML_BUFFER_ALLOC_EXACT,
{
    XML_BUFFER_ALLOC_EXACT
}

/// Allocation schemes are gone: setting one leaves the record as it is.
pub fn xmlBufferSetAllocationScheme(_buffer: &mut XmlBuffer, _scheme: i32)
    ensures
        final(_buffer)@ == old(_buffer)@,
{
}

/// What `xmlBufferShrink(len)` reports: the bytes dropped, 0 for none asked,
/// -1 where `len` passes the length.
pub open spec fn shrink_status(m: LegacyModel, len: nat) -> int {
    if len == 0 {
        0
    } else if len > m.used {
        -1
    } else {
        len as int
    }
}

/// The record after `xmlBufferShrink(len)`: in the IO mode the window slides
/// past the dropped bytes; else the rest of the content moves to the base.
pub open spec fn shrink_model(m: LegacyModel, len: nat) -> LegacyModel {
    if len == 0 || len > m.used {
        m
    } else if m.alloc == XML_BUFFER_ALLOC_IO {
        LegacyModel {
            start: m.start + len,
            used: (m.used - len) as nat,
            size: (m.size - len) as nat,
            ..m
        }
    } else {
        LegacyModel {
            mem: Some(slide(m.bytes(), len, (m.used - len) as nat)),
            used: (m.used - len) as nat,
            ..m
        }
    }
}

/// The record with `p` put in front of its content.
pub open spec fn prepend_model(g: LegacyModel, p: Seq<u8>) -> LegacyModel {
    LegacyModel {
        mem: Some(
            splice(
                g.bytes(),
                g.start,
                p + g.bytes().subrange(g.start as int, (g.start + g.used + 1) as int),
            ),
        ),
        used: g.used + p.len(),
        ..g
    }
}

/// The record that `xmlBufferAddHead` of `p` writes into: grown first where
/// the room is short.
pub open spec fn head_grown(m: LegacyModel, p: Seq<u8>) -> LegacyModel {
    if p.len() >= m.size - m.used {
        grow_model(m, p.len())
    } else {
        m
    }
}

/// `xmlBufferAddHead` of `p` puts it in front of the content.
pub open spec fn head_fits(m: LegacyModel, p: Seq<u8>) -> bool {
    p.len() <= LEGACY_MAX && p.len() < head_grown(m, p).size - head_grown(m, p).used
}

pub open spec fn add_head_model(m: LegacyModel, p: Seq<u8>) -> LegacyModel {
    if p.len() == 0 || p.len() > LEGACY_MAX {
        m
    } else if head_fits(m, p) {
        prepend_model(head_grown(m, p), p)
    } else {
        head_grown(m, p)
    }
}

pub open spec fn add_head_status(m: LegacyModel, p: Seq<u8>) -> int {
    if p.len() == 0 || head_fits(m, p) {
        0
    } else {
        -1
    }
}

/// Makes room for more than `len` bytes: 0 where it is there already, else
/// reallocates to twice the size (at most `LEGACY_MAX`) or to `use + len + 1`
/// and returns the room after the terminator slot; -1 where that size would
/// pass `LEGACY_MAX`.
pub fn xmlBufferGrow(buffer: &mut XmlBuffer, len: u32) -> (r: i32)
    requires
        old(buffer)@.valid(),
    ensures
        final(buffer)@.valid(),
        r == grow_status(old(buffer)@, len as nat),
        final(buffer)@ == grow_model(old(buffer)@, len as nat),
{
    if len < buffer.size - buffer.use_ {
        return 0;
    }
    let new_size: u64 = if buffer.size > len {
        if buffer.size <= LEGACY_MAX / 2 {
            buffer.size as u64 * 2
        } else {
            LEGACY_MAX as u64
        }
    } else {
        buffer.use_ as u64 + len as u64 + 1
    };
    if new_size > LEGACY_MAX as u64 {
        return -1;
    }
    let n = new_size as usize;
    let mut v: Vec<u8> = Vec::new();
    match &buffer.mem {
        Some(old_mem) => {
            let all = old_mem.as_slice();
            v.extend_from_slice(&all[buffer.start..buffer.start + buffer.size as usize]);
        },
        None => {},
    }
    assert(v@ =~= old(buffer)@.window());
    v.resize(n + 1, 0);
    assert(v@ =~= old(buffer)@.window() + Seq::new(
        (n + 1 - old(buffer)@.size) as nat,
        |i: int| 0u8,
    ));
    assert(v@.len() == v.len());
    buffer.mem = Some(v);
    buffer.start = 0;
    buffer.size = n as u32;
    (n - buffer.use_ as usize - 1) as i32
}

/// Makes the capacity at least `size`: 1 on success, 0 where growing failed.
pub fn xmlBufferResize(buffer: &mut XmlBuffer, size: u32) -> (r: i32)
    requires
        old(buffer)@.valid(),
    ensures
        final(buffer)@.valid(),
        size < old(buffer)@.size ==> r == 1 && final(buffer)@ == old(buffer)@,
        size >= old(buffer)@.size ==> final(buffer)@ == grow_model(
            old(buffer)@,
            (size - old(buffer)@.used) as nat,
        ) && r == (if grow_status(old(buffer)@, (size - old(buffer)@.used) as nat) < 0 {
            0int
        } else {
            1
        }),
{
    if size < buffer.size {
        return 1;
    }
    let res = xmlBufferGrow(buffer, size - buffer.use_);
    if res < 0 {
        0
    } else {
        1
    }
}

/// Drops the first `len` bytes of the content: returns `len`, 0 for a `len`
/// of 0, -1 where `len` passes the length.
pub fn xmlBufferShrink(buffer: &mut XmlBuffer, len: u32) -> (r: i32)
    requires
        old(buffer)@.valid(),
    ensures
        final(buffer)@.valid(),
        r == shrink_status(old(buffer)@, len as nat),
        final(buffer)@ == shrink_model(old(buffer)@, len as nat),
{
    if len == 0 {
        return 0;
    }
    if len > buffer.use_ {
        return -1;
    }
    buffer.use_ = buffer.use_ - len;
    if buffer.alloc == XML_BUFFER_ALLOC_IO {
        buffer.start = buffer.start + len as usize;
        buffer.size = buffer.size - len;
    } else {
        let mut v = buffer.mem.take().unwrap();
        slide_vec(&mut v, len as usize, buffer.use_ as usize);
        buffer.mem = Some(v);
    }
    len as i32
}

/// Hands the storage out and leaves the record without any: an exact copy of
/// the content and its terminator where the window starts after the base,
/// else the whole allocation, whose content starts at its first byte.
pub fn xmlBufferDetach(buffer: &mut XmlBuffer) -> (r: Option<Vec<u8>>)
    requires
        old(buffer)@.valid(),
    ensures
        final(buffer)@.valid(),
        final(buffer)@ == (LegacyModel {
            mem: None,
            start: 0,
            used: 0,
            size: 0,
            alloc: old(buffer)@.alloc,
        }),
        old(buffer)@.mem is None ==> r is None,
        old(buffer)@.mem is Some && old(buffer)@.start != 0 ==> (r matches Some(v) && v@ == old(
            buffer,
        )@.bytes().subrange(
            old(buffer)@.start as int,
            (old(buffer)@.start + old(buffer)@.used + 1) as int,
        )),
        old(buffer)@.mem is Some && old(buffer)@.start == 0 ==> (r matches Some(v) && v@ == old(
            buffer,
        )@.bytes()),
{
    let taken = buffer.mem.take();
    let start = buffer.start;
    let n = buffer.use_ as usize + 1;
    buffer.start = 0;
    buffer.use_ = 0;
    buffer.size = 0;
    match taken {
        None => None,
        Some(v) => {
            if start != 0 {
                let mut out: Vec<u8> = Vec::new();
                let all = v.as_slice();
                out.extend_from_slice(&all[start..start + n]);
                Some(out)
            } else {
                Some(v)
            }
        },
    }
}

/// Moves the `count` bytes at `at` to `at + by`, the last first.
fn shift_right(v: &mut Vec<u8>, at: usize, count: usize, by: usize)
    requires
        at + by + count <= old(v)@.len(),
    ensures
        final(v)@ == splice(
            old(v)@,
            (at + by) as nat,
            old(v)@.subrange(at as int, (at + count) as int),
        ),
{
    let ghost orig = v@;
    assert(orig.len() == v.len());
    let mut i: usize = count;
    while i > 0
        invariant
            at + by + count <= orig.len() <= usize::MAX,
            v@.len() == orig.len(),
            orig == old(v)@,
            i <= count,
            forall|k: int|
                0 <= k < orig.len() ==> v@[k] == (if at + by + i <= k < at + by + count {
                    orig[k - by]
                } else {
                    orig[k]
                }),
        decreases i,
    {
        i = i - 1;
        let b = v[at + i];
        v.set(at + by + i, b);
    }
    assert(v@ =~= splice(orig, (at + by) as nat, orig.subrange(at as int, (at + count) as int)));
}

/// Puts `len` bytes of `s` in front of the content, growing the record first
/// where the room is short: 0, or -1 where `s` is missing or the room cannot
/// be had.
pub fn xmlBufferAddHead(buffer: &mut XmlBuffer, s: Option<&[u8]>, len: i32) -> (r: i32)
    requires
        old(buffer)@.valid(),
        s matches Some(b) ==> resolved(b@, len),
    ensures
        final(buffer)@.valid(),
        s is None ==> r == -1 && final(buffer)@ == old(buffer)@,
        s matches Some(b) ==> r == add_head_status(old(buffer)@, b@) && final(buffer)@
            == add_head_model(old(buffer)@, b@),
{
    let src = match s {
        None => {
            return -1;
        },
        Some(b) => b,
    };
    let n = src.len();
    if n == 0 {
        return 0;
    }
    if n > LEGACY_MAX as usize {
        return -1;
    }
    if n as u32 >= buffer.size - buffer.use_ {
        xmlBufferGrow(buffer, n as u32);
    }
    if n as u32 >= buffer.size - buffer.use_ {
        return -1;
    }
    let ghost g = buffer@;
    let start = buffer.start;
    let count = buffer.use_ as usize + 1;
    let mut v = buffer.mem.take().unwrap();
    shift_right(&mut v, start, count, n);
    write_at(&mut v, start, src);
    assert(v@ =~= splice(
        g.bytes(),
        g.start,
        src@ + g.bytes().subrange(g.start as int, (g.start + g.used + 1) as int),
    ));
    buffer.mem = Some(v);
    buffer.use_ = buffer.use_ + n as u32;
    0
}

/// The double quote.
pub const DQ: u8 = 34;

/// The single quote.
pub const SQ: u8 = 39;

/// The entity reference that stands for a double quote: `&quot;`.
pub open spec fn quot_entity() -> Seq<u8> {
    seq![38u8, 113u8, 117u8, 111u8, 116u8, 59u8]
}

/// Each byte of `s`, a double quote replaced by its entity reference.
pub open spec fn escape_pieces(s: Seq<u8>) -> Seq<Seq<u8>> {
    Seq::new(s.len(), |i: int| if s[i] == DQ { quot_entity() } else { seq![s[i]] })
}

/// The pieces that `xmlBufferWriteQuotedString` appends, one by one: text
/// with both kinds of quote goes in double quotes with its double quotes
/// escaped; text with double quotes only goes in single quotes; any other
/// text goes in double quotes. Only the first case escapes anything.
pub open spec fn quote_pieces(s: Seq<u8>) -> Seq<Seq<u8>> {
    if s.contains(DQ) {
        if s.contains(SQ) {
            seq![seq![DQ]] + escape_pieces(s) + seq![seq![DQ]]
        } else {
            seq![seq![SQ], s, seq![SQ]]
        }
    } else {
        seq![seq![DQ], s, seq![DQ]]
    }
}

/// The quoted form of `s`.
pub open spec fn quoted(s: Seq<u8>) -> Seq<u8> {
    quote_pieces(s).flatten()
}

/// The record after each of `ps` was appended with `xmlBufferAdd`, in order.
pub open spec fn append_all(m: LegacyModel, ps: Seq<Seq<u8>>) -> LegacyModel
    decreases ps.len(),
{
    if ps.len() == 0 {
        m
    } else {
        append_model(append_all(m, ps.drop_last()), ps.last())
    }
}

proof fn lemma_append_all_push(m: LegacyModel, ps: Seq<Seq<u8>>, p: Seq<u8>)
    ensures
        append_all(m, ps.push(p)) == append_model(append_all(m, ps), p),
{
    assert(ps.push(p).drop_last() =~= ps);
}

/// Whether `c` occurs in `s`.
fn contains_byte(s: &[u8], c: u8) -> (r: bool)
    ensures
        r == s@.contains(c),
{
    let mut i: usize = 0;
    while i < s.len()
        invariant
            i <= s@.len(),
            forall|k: int| 0 <= k < i ==> s@[k] != c,
        decreases s@.len() - i,
    {
        if s[i] == c {
            return true;
        }
        i = i + 1;
    }
    false
}

/// Appends `s` in quotes, escaping as `quote_pieces` says. Each piece goes in
/// with the non-growing `xmlBufferAdd`, so a piece that does not fit is left
/// out. A missing string writes nothing.
pub fn xmlBufferWriteQuotedString(buffer: &mut XmlBuffer, s: Option<&[u8]>)
    requires
        old(buffer)@.valid(),
    ensures
        final(buffer)@.valid(),
        s is None ==> final(buffer)@ == old(buffer)@,
        s matches Some(t) ==> final(buffer)@ == append_all(old(buffer)@, quote_pieces(t@)),
{
    let text = match s {
        None => {
            return ;
        },
        Some(t) => t,
    };
    let ghost m0 = buffer@;
    let ghost t = text@;
    let dq: Vec<u8> = vec![34u8];
    let sq: Vec<u8> = vec![39u8];
    let quot: Vec<u8> = vec![38u8, 113u8, 117u8, 111u8, 116u8, 59u8];
    assert(dq@ =~= seq![DQ]);
    assert(sq@ =~= seq![SQ]);
    assert(quot@ =~= quot_entity());
    if contains_byte(text, DQ) {
        if contains_byte(text, SQ) {
            xmlBufferCCat(buffer, Some(dq.as_slice()));
            proof {
                lemma_append_all_push(m0, Seq::empty(), seq![DQ]);
                assert(Seq::<Seq<u8>>::empty().push(seq![DQ]) =~= seq![seq![DQ]]
                    + escape_pieces(t).take(0));
            }
            let mut i: usize = 0;
            while i < text.len()
                invariant
                    t == text@,
                    dq@ == seq![DQ],
                    quot@ == quot_entity(),
                    i <= t.len(),
                    buffer@.valid(),
                    buffer@ == append_all(m0, seq![seq![DQ]] + escape_pieces(t).take(i as int)),
                decreases t.len() - i,
            {
                let ghost before = seq![seq![DQ]] + escape_pieces(t).take(i as int);
                if text[i] == DQ {
                    xmlBufferAdd(buffer, Some(quot.as_slice()), 6);
                } else {
                    let one = &text[i..i + 1];
                    assert(one@ =~= seq![t[i as int]]);
                    xmlBufferAdd(buffer, Some(one), 1);
                }
                proof {
                    lemma_append_all_push(m0, before, escape_pieces(t)[i as int]);
                    assert(before.push(escape_pieces(t)[i as int]) =~= seq![seq![DQ]]
                        + escape_pieces(t).take(i + 1));
                }
                i = i + 1;
            }
            let ghost body = seq![seq![DQ]] + escape_pieces(t).take(t.len() as int);
            xmlBufferCCat(buffer, Some(dq.as_slice()));
            proof {
                lemma_append_all_push(m0, body, seq![DQ]);
                assert(body.push(seq![DQ]) =~= quote_pieces(t));
            }
        } else {
            xmlBufferCCat(buffer, Some(sq.as_slice()));
            xmlBufferCat(buffer, Some(text));
            xmlBufferCCat(buffer, Some(sq.as_slice()));
            proof {
                lemma_append_all_push(m0, Seq::empty(), seq![SQ]);
                lemma_append_all_push(m0, seq![seq![SQ]], t);
                lemma_append_all_push(m0, seq![seq![SQ], t], seq![SQ]);
                assert(Seq::<Seq<u8>>::empty().push(seq![SQ]) =~= seq![seq![SQ]]);
                assert(seq![seq![SQ]].push(t) =~= seq![seq![SQ], t]);
                assert(seq![seq![SQ], t].push(seq![SQ]) =~= quote_pieces(t));
            }
        }
    } else {
        xmlBufferCCat(buffer, Some(dq.as_slice()));
        xmlBufferCat(buffer, Some(text));
        xmlBufferCCat(buffer, Some(dq.as_slice()));
        proof {
            lemma_append_all_push(m0, Seq::empty(), seq![DQ]);
            lemma_append_all_push(m0, seq![seq![DQ]], t);
            lemma_append_all_push(m0, seq![seq![DQ], t], seq![DQ]);
            assert(Seq::<Seq<u8>>::empty().push(seq![DQ]) =~= seq![seq![DQ]]);
            assert(seq![seq![DQ]].push(t) =~= seq![seq![DQ], t]);
            assert(seq![seq![DQ], t].push(seq![DQ]) =~= quote_pieces(t));
        }
    }
}

} // verus!
