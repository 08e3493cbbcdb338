//! The table of live buffers behind opaque integer handles, and the operations
//! that callers issue by handle. Every failure is a sentinel: `-1`, `0`, a
//! missing value or [`BufContent::Null`].
#![allow(non_snake_case)]
use std::collections::HashMap;
use vstd::prelude::*;
use crate::legacy::{LegacyModel, XmlBuffer, LEGACY_MAX, XML_BUFFER_ALLOC_IO};
use crate::buf::{
    add_model, filled_model, add_result, add_len_model, add_len_result, detached_model, empty_model,
    grow_model, grow_result, new_model, owned_model, shrink_model, shrink_ok, static_model,
    view_of, BufContent, BufModel, XmlBuf,
};

verus! {

/// The first handle given out. Handle 0 means "no buffer"; the values below
/// this one stay free for callers that mix in older conventions.
pub const FIRST_HANDLE: usize = 5;

/// Owns every live buffer, keyed by its handle, and hands out fresh handles.
pub struct BufRegistry {
    buffers: HashMap<usize, XmlBuf>,
    counter: usize,
}

/// The models of a table of buffers.
pub open spec fn models(m: Map<usize, XmlBuf>) -> Map<usize, BufModel> {
    m.map_values(|b: XmlBuf| b@)
}

proof fn lemma_models_insert(m: Map<usize, XmlBuf>, h: usize, b: XmlBuf)
    ensures
        models(m.insert(h, b)) == models(m).insert(h, b@),
{
    assert(models(m.insert(h, b)) =~= models(m).insert(h, b@));
}

proof fn lemma_models_remove(m: Map<usize, XmlBuf>, h: usize)
    ensures
        models(m.remove(h)) == models(m).remove(h),
{
    assert(models(m.remove(h)) =~= models(m).remove(h));
}

impl View for BufRegistry {
    type V = Map<usize, BufModel>;

    /// The model of each live buffer, by handle.
    closed spec fn view(&self) -> Map<usize, BufModel> {
        models(self.buffers@)
    }
}

impl BufRegistry {
    /// Every live handle is below the next one to be given out, and never 0.
    pub closed spec fn wf(&self) -> bool {
        &&& self.counter >= FIRST_HANDLE
        &&& forall|h: usize| #[trigger]
            self.buffers@.contains_key(h) ==> 0 < h < self.counter && self.buffers@[h].wf()
    }

    /// The handle that the next buffer will get.
    pub closed spec fn next(&self) -> nat {
        self.counter as nat
    }

    /// What `wf` tells a caller about the table.
    pub proof fn lemma_wf(&self)
        requires
            self.wf(),
        ensures
            self.next() >= FIRST_HANDLE,
            forall|h: usize| #[trigger]
                self@.contains_key(h) ==> 0 < h < self.next() && self@[h].valid(),
    {
        assert forall|h: usize| #[trigger] self@.contains_key(h) implies 0 < h < self.next()
            && self@[h].valid() by {
            self.buffers@[h].lemma_valid();
        }
    }

    /// An empty table.
    pub fn new() -> (r: BufRegistry)
        ensures
            r.wf(),
            r@ == Map::<usize, BufModel>::empty(),
            r.next() == FIRST_HANDLE,
    {
        let r = BufRegistry { buffers: HashMap::new(), counter: FIRST_HANDLE };
        assert(r@ =~= Map::<usize, BufModel>::empty());
        r
    }

    /// Stores `b` under a fresh handle, or drops it and returns 0 where the
    /// handles have run out.
    fn register(&mut self, b: XmlBuf) -> (r: usize)
        requires
            old(self).wf(),
            b.wf(),
        ensures
            final(self).wf(),
            r == 0 <==> old(self).next() == usize::MAX,
            r == 0 ==> final(self)@ == old(self)@ && final(self).next() == old(self).next(),
            r != 0 ==> r == old(self).next() && final(self).next() == r + 1
                && !old(self)@.contains_key(r) && final(self)@ == old(self)@.insert(r, b@),
    {
        let h = next_handle(self);
        if h == 0 {
            return 0;
        }
        proof {
            lemma_models_insert(self.buffers@, h, b);
        }
        self.buffers.insert(h, b);
        h
    }
}

/// The live buffers, by handle.
pub fn get_buffers(reg: &BufRegistry) -> (r: &HashMap<usize, XmlBuf>)
    requires
        reg.wf(),
    ensures
        models(r@) == reg@,
        forall|h: usize| #[trigger] r@.contains_key(h) ==> r@[h].wf(),
{
    &reg.buffers
}

/// Gives out the next handle: one never given out before by this table, or 0
/// once the handles have run out.
pub fn next_handle(reg: &mut BufRegistry) -> (r: usize)
    requires
        old(reg).wf(),
    ensures
        final(reg).wf(),
        final(reg)@ == old(reg)@,
        old(reg).next() < usize::MAX ==> r == old(reg).next() && final(reg).next() == r + 1,
        old(reg).next() == usize::MAX ==> r == 0 && final(reg).next() == old(reg).next(),
{
    if reg.counter == usize::MAX {
        return 0;
    }
    let h = reg.counter;
    reg.counter = reg.counter + 1;
    assert forall|k: usize| #[trigger] reg.buffers@.contains_key(k) implies 0 < k < reg.counter
        && reg.buffers@[k].wf() by {}
    h
}

/// The outcome of an operation that reports 0 for success and -1 for failure.
pub open spec fn status<E>(r: Result<(), E>) -> int {
    if r is Ok {
        0
    } else {
        -1
    }
}

/// Takes the buffer of handle `buf` out of the table, for an operation to
/// change it and put it back.
fn take(reg: &mut BufRegistry, buf: usize) -> (r: Option<XmlBuf>)
    requires
        old(reg).wf(),
    ensures
        final(reg).counter == old(reg).counter,
        final(reg).buffers@ == old(reg).buffers@.remove(buf),
        old(reg).buffers@.contains_key(buf) ==> r == Some(old(reg).buffers@[buf]),
        !old(reg).buffers@.contains_key(buf) ==> r is None,
        r matches Some(b) ==> b.wf() && b@ == old(reg)@[buf],
{
    reg.buffers.remove(&buf)
}

/// Puts back a buffer that `take` took out.
fn put_back(reg: &mut BufRegistry, buf: usize, b: XmlBuf)
    requires
        0 < buf < old(reg).counter,
        old(reg).counter >= FIRST_HANDLE,
        forall|h: usize| #[trigger]
            old(reg).buffers@.contains_key(h) ==> 0 < h < old(reg).counter
                && old(reg).buffers@[h].wf(),
        b.wf(),
    ensures
        final(reg).wf(),
        final(reg).counter == old(reg).counter,
        final(reg)@ == models(old(reg).buffers@).insert(buf, b@),
{
    proof {
        lemma_models_insert(reg.buffers@, buf, b);
    }
    reg.buffers.insert(buf, b);
}

/// Creates an empty buffer with room for `size` bytes; returns its handle, or
/// 0 where `size` is `usize::MAX` or the handles have run out.
pub fn xmlBufCreate(reg: &mut BufRegistry, size: usize) -> (r: usize)
    requires
        old(reg).wf(),
    ensures
        final(reg).wf(),
        r == 0 <==> size == usize::MAX || old(reg).next() == usize::MAX,
        r == 0 ==> final(reg)@ == old(reg)@,
        r != 0 ==> r == old(reg).next() && !old(reg)@.contains_key(r) && final(reg)@ == old(
            reg,
        )@.insert(r, new_model(size as nat)),
        r != 0 ==> final(reg)@[r].len == 0 && final(reg)@[r].avail() >= size
            && final(reg)@[r].writable() && final(reg)@[r].storage[0] == 0,
{
    match XmlBuf::new(size) {
        Ok(b) => reg.register(b),
        Err(_) => 0,
    }
}

/// Creates a buffer over the caller's memory `mem`, `size` bytes at `addr`: a
/// copy, or where `is_static` is not 0 a read-only view that must already be
/// followed by a zero byte. Returns its handle, or 0.
pub fn xmlBufCreateMem(
    reg: &mut BufRegistry,
    mem: Option<&[u8]>,
    addr: usize,
    size: usize,
    is_static: i32,
) -> (r: usize)
    requires
        old(reg).wf(),
        mem matches Some(s) ==> s@.len() == (if is_static != 0 {
            size + 1
        } else {
            size as int
        }),
    ensures
        final(reg).wf(),
        r == 0 <==> mem is None || (is_static != 0 && mem->0@[size as int] != 0) || old(
            reg,
        ).next() == usize::MAX,
        r == 0 ==> final(reg)@ == old(reg)@,
        r != 0 ==> r == old(reg).next() && !old(reg)@.contains_key(r) && final(reg)@ == old(
            reg,
        )@.insert(
            r,
            if is_static != 0 {
                static_model(addr, size as nat)
            } else {
                owned_model(mem->0@)
            },
        ),
        r != 0 && is_static != 0 ==> final(reg)@[r].static_addr == Some(addr)
            && final(reg)@[r].len == size && final(reg)@[r].avail() == 0
            && !final(reg)@[r].writable(),
{
    match XmlBuf::new_from_mem(mem, addr, size, is_static != 0) {
        Ok(b) => reg.register(b),
        Err(_) => 0,
    }
}

/// Frees the buffer of handle `buf`; from then on the handle is unknown.
pub fn xmlBufFree(reg: &mut BufRegistry, buf: usize)
    requires
        old(reg).wf(),
    ensures
        final(reg).wf(),
        final(reg).next() == old(reg).next(),
        final(reg)@ == old(reg)@.remove(buf),
{
    if buf == 0 {
        assert(reg@ =~= reg@.remove(0));
        return ;
    }
    proof {
        lemma_models_remove(reg.buffers@, buf);
    }
    reg.buffers.remove(&buf);
}

/// Empties the buffer of handle `buf`.
pub fn xmlBufEmpty(reg: &mut BufRegistry, buf: usize)
    requires
        old(reg).wf(),
    ensures
        final(reg).wf(),
        final(reg).next() == old(reg).next(),
        old(reg)@.contains_key(buf) ==> final(reg)@ == old(reg)@.insert(
            buf,
            empty_model(old(reg)@[buf]),
        ),
        !old(reg)@.contains_key(buf) ==> final(reg)@ == old(reg)@,
{
    if buf == 0 {
        return ;
    }
    match take(reg, buf) {
        None => {},
        Some(mut b) => {
            b.empty();
            put_back(reg, buf, b);
            assert(models(old(reg).buffers@.remove(buf)).insert(buf, b@) =~= old(reg)@.insert(
                buf,
                b@,
            ));
        },
    }
}

/// Makes room for `len` more bytes in the buffer of handle `buf`: 0, or -1
/// where the handle is unknown or the buffer refuses.
pub fn xmlBufGrow(reg: &mut BufRegistry, buf: usize, len: usize) -> (r: i32)
    requires
        old(reg).wf(),
    ensures
        final(reg).wf(),
        final(reg).next() == old(reg).next(),
        old(reg)@.contains_key(buf) ==> final(reg)@ == old(reg)@.insert(
            buf,
            grow_model(old(reg)@[buf], len as nat),
        ) && r == status(grow_result(old(reg)@[buf], len as nat)),
        !old(reg)@.contains_key(buf) ==> final(reg)@ == old(reg)@ && r == -1,
{
    if buf == 0 {
        return -1;
    }
    match take(reg, buf) {
        None => -1,
        Some(mut b) => {
            let res = b.grow(len);
            put_back(reg, buf, b);
            assert(models(old(reg).buffers@.remove(buf)).insert(buf, b@) =~= old(reg)@.insert(
                buf,
                b@,
            ));
            match res {
                Ok(()) => 0,
                Err(_) => -1,
            }
        },
    }
}

/// Appends `len` bytes read from `mem` to the buffer of handle `buf`; `None`
/// stands for a caller that gave no memory. 0, or -1.
pub fn xmlBufAdd(reg: &mut BufRegistry, buf: usize, mem: Option<&[u8]>, len: usize) -> (r: i32)
    requires
        old(reg).wf(),
        mem matches Some(s) ==> s@.len() == len,
    ensures
        final(reg).wf(),
        final(reg).next() == old(reg).next(),
        old(reg)@.contains_key(buf) ==> final(reg)@ == old(reg)@.insert(
            buf,
            add_model(old(reg)@[buf], view_of(mem), len as nat),
        ) && r == status(add_result(old(reg)@[buf], view_of(mem), len as nat)),
        !old(reg)@.contains_key(buf) ==> final(reg)@ == old(reg)@ && r == -1,
{
    if buf == 0 {
        return -1;
    }
    match take(reg, buf) {
        None => -1,
        Some(mut b) => {
            let res = b.add(mem, len);
            put_back(reg, buf, b);
            assert(models(old(reg).buffers@.remove(buf)).insert(buf, b@) =~= old(reg)@.insert(
                buf,
                b@,
            ));
            match res {
                Ok(()) => 0,
                Err(_) => -1,
            }
        },
    }
}

/// Appends the bytes of a string, read up to its terminator, to the buffer of
/// handle `buf`; a missing string adds nothing. 0, or -1.
pub fn xmlBufCat(reg: &mut BufRegistry, buf: usize, s: Option<&[u8]>) -> (r: i32)
    requires
        old(reg).wf(),
    ensures
        final(reg).wf(),
        final(reg).next() == old(reg).next(),
        old(reg)@.contains_key(buf) && s is None ==> final(reg)@ == old(reg)@ && r == 0,
        old(reg)@.contains_key(buf) && s is Some ==> final(reg)@ == old(reg)@.insert(
            buf,
            add_model(old(reg)@[buf], view_of(s), s->0@.len()),
        ) && r == status(add_result(old(reg)@[buf], view_of(s), s->0@.len())),
        !old(reg)@.contains_key(buf) ==> final(reg)@ == old(reg)@ && r == -1,
{
    if buf == 0 {
        return -1;
    }
    match take(reg, buf) {
        None => -1,
        Some(mut b) => {
            let res = b.cat(s);
            put_back(reg, buf, b);
            assert(models(old(reg).buffers@.remove(buf)).insert(buf, b@) =~= old(reg)@.insert(
                buf,
                b@,
            ));
            proof {
                if s is None {
                    assert(old(reg)@.insert(buf, b@) =~= old(reg)@);
                }
            }
            match res {
                Ok(()) => 0,
                Err(_) => -1,
            }
        },
    }
}

/// Room left in the buffer of handle `buf`; 0 where the handle is unknown or
/// the buffer is in error.
pub fn xmlBufAvail(reg: &BufRegistry, buf: usize) -> (r: usize)
    requires
        reg.wf(),
    ensures
        r == (if reg@.contains_key(buf) {
            reg@[buf].avail()
        } else {
            0
        }),
{
    if buf == 0 {
        return 0;
    }
    match get_buffers(reg).get(&buf) {
        Some(b) => b.avail(),
        None => 0,
    }
}

/// 1 where the buffer of handle `buf` holds no content, 0 where it holds
/// some, -1 where the handle is unknown or the buffer is in error.
pub fn xmlBufIsEmpty(reg: &BufRegistry, buf: usize) -> (r: i32)
    requires
        reg.wf(),
    ensures
        r == (if !reg@.contains_key(buf) || reg@[buf].error {
            -1
        } else if reg@[buf].len == 0 {
            1int
        } else {
            0
        }),
{
    if buf == 0 {
        return -1;
    }
    match get_buffers(reg).get(&buf) {
        Some(b) => {
            if b.is_error() {
                -1
            } else if b.is_empty() {
                1
            } else {
                0
            }
        },
        None => -1,
    }
}

/// Counts `len` more bytes of the room of the buffer of handle `buf` as
/// content: bytes that the caller wrote there. 0, or -1.
pub fn xmlBufAddLen(reg: &mut BufRegistry, buf: usize, len: usize) -> (r: i32)
    requires
        old(reg).wf(),
    ensures
        final(reg).wf(),
        final(reg).next() == old(reg).next(),
        old(reg)@.contains_key(buf) ==> final(reg)@ == old(reg)@.insert(
            buf,
            add_len_model(old(reg)@[buf], len as nat),
        ) && r == status(add_len_result(old(reg)@[buf], len as nat)),
        !old(reg)@.contains_key(buf) ==> final(reg)@ == old(reg)@ && r == -1,
{
    if buf == 0 {
        return -1;
    }
    match take(reg, buf) {
        None => -1,
        Some(mut b) => {
            let res = b.add_len(len);
            put_back(reg, buf, b);
            assert(models(old(reg).buffers@.remove(buf)).insert(buf, b@) =~= old(reg)@.insert(
                buf,
                b@,
            ));
            match res {
                Ok(()) => 0,
                Err(_) => -1,
            }
        },
    }
}

/// Takes the content of the buffer of handle `buf` out, with its terminator,
/// and leaves the buffer empty. Nothing where the handle is unknown or the
/// buffer is static or in error.
pub fn xmlBufDetach(reg: &mut BufRegistry, buf: usize) -> (r: Option<Vec<u8>>)
    requires
        old(reg).wf(),
    ensures
        final(reg).wf(),
        final(reg).next() == old(reg).next(),
        old(reg)@.contains_key(buf) && old(reg)@[buf].writable() ==> final(reg)@ == old(
            reg,
        )@.insert(buf, detached_model(old(reg)@[buf])) && (r matches Some(v) && v@ == old(
            reg,
        )@[buf].data().push(0u8)),
        !(old(reg)@.contains_key(buf) && old(reg)@[buf].writable()) ==> final(reg)@ == old(reg)@
            && r is None,
{
    if buf == 0 {
        return None;
    }
    match take(reg, buf) {
        None => None,
        Some(mut b) => {
            let res = b.detach();
            put_back(reg, buf, b);
            assert(models(old(reg).buffers@.remove(buf)).insert(buf, b@) =~= old(reg)@.insert(
                buf,
                b@,
            ));
            proof {
                if !old(reg)@[buf].writable() {
                    assert(old(reg)@.insert(buf, b@) =~= old(reg)@);
                }
            }
            match res {
                Ok(v) => Some(v),
                Err(_) => None,
            }
        },
    }
}

/// Where the content of the buffer of handle `buf` can be read in place;
/// `Null` where the handle is unknown or the buffer is in error.
pub fn xmlBufContent(reg: &BufRegistry, buf: usize) -> (r: BufContent<'_>)
    requires
        reg.wf(),
    ensures
        !reg@.contains_key(buf) || reg@[buf].error ==> r is Null,
        reg@.contains_key(buf) && !reg@[buf].error && reg@[buf].is_static() ==> r
            == BufContent::Static(reg@[buf].static_addr->0),
        reg@.contains_key(buf) && !reg@[buf].error && !reg@[buf].is_static() ==> (r matches BufContent::Owned(s)
            && s@ == reg@[buf].storage.subrange(
            reg@[buf].offset as int,
            reg@[buf].storage.len() as int,
        )),
{
    if buf == 0 {
        return BufContent::Null;
    }
    match get_buffers(reg).get(&buf) {
        Some(b) => b.content_ptr(),
        None => BufContent::Null,
    }
}

/// The room after the content of the buffer of handle `buf`, from its
/// terminator on; nothing where the handle is unknown or the buffer is static
/// or in error.
pub fn xmlBufEnd(reg: &BufRegistry, buf: usize) -> (r: Option<&[u8]>)
    requires
        reg.wf(),
    ensures
        !reg@.contains_key(buf) || !reg@[buf].writable() ==> r is None,
        reg@.contains_key(buf) && reg@[buf].writable() ==> (r matches Some(s) && s@
            == reg@[buf].storage.subrange(
            (reg@[buf].offset + reg@[buf].len) as int,
            reg@[buf].storage.len() as int,
        )),
{
    if buf == 0 {
        return None;
    }
    match get_buffers(reg).get(&buf) {
        Some(b) => b.end(),
        None => None,
    }
}

/// The logical length of the buffer of handle `buf`; 0 where the handle is
/// unknown or the buffer is in error.
pub fn xmlBufUse(reg: &BufRegistry, buf: usize) -> (r: usize)
    requires
        reg.wf(),
    ensures
        r == (if !reg@.contains_key(buf) || reg@[buf].error {
            0
        } else {
            reg@[buf].len
        }),
{
    if buf == 0 {
        return 0;
    }
    match get_buffers(reg).get(&buf) {
        Some(b) => {
            if b.is_error() {
                0
            } else {
                b.used()
            }
        },
        None => 0,
    }
}

/// Drops the first `len` bytes of the content of the buffer of handle `buf`;
/// returns how many went, 0 where none could.
pub fn xmlBufShrink(reg: &mut BufRegistry, buf: usize, len: usize) -> (r: usize)
    requires
        old(reg).wf(),
    ensures
        final(reg).wf(),
        final(reg).next() == old(reg).next(),
        old(reg)@.contains_key(buf) ==> final(reg)@ == old(reg)@.insert(
            buf,
            shrink_model(old(reg)@[buf], len as nat),
        ) && r == (if shrink_ok(old(reg)@[buf], len as nat) {
            len
        } else {
            0
        }),
        !old(reg)@.contains_key(buf) ==> final(reg)@ == old(reg)@ && r == 0,
{
    if buf == 0 {
        return 0;
    }
    match take(reg, buf) {
        None => 0,
        Some(mut b) => {
            let res = b.shrink(len);
            put_back(reg, buf, b);
            assert(models(old(reg).buffers@.remove(buf)).insert(buf, b@) =~= old(reg)@.insert(
                buf,
                b@,
            ));
            res
        },
    }
}

/// Where a parser cursor over a buffer points: the content, and the positions
/// of the cursor and of the end of the content, counted from its start.
pub struct InputWindow<'a> {
    pub base: BufContent<'a>,
    pub cur: usize,
    pub end: usize,
}

/// The cursor of a parser over the buffer of handle `buf`, placed at `pos`.
/// Nothing where the handle is unknown, the buffer is in error, or its
/// content has no address.
pub fn xmlBufUpdateInput(reg: &BufRegistry, buf: usize, pos: usize) -> (r: Option<
    InputWindow<'_>,
>)
    requires
        reg.wf(),
    ensures
        r is None <==> !reg@.contains_key(buf) || reg@[buf].error || reg@[buf].static_addr
            == Some(0usize),
        r matches Some(w) ==> w.cur == pos && w.end == reg@[buf].len && (if reg@[buf].is_static() {
            w.base == BufContent::Static(reg@[buf].static_addr->0)
        } else {
            w.base matches BufContent::Owned(s) && s@ == reg@[buf].storage.subrange(
                reg@[buf].offset as int,
                reg@[buf].storage.len() as int,
            )
        }),
{
    if buf == 0 {
        return None;
    }
    match get_buffers(reg).get(&buf) {
        Some(b) => {
            if b.is_error() {
                return None;
            }
            let base = b.content_ptr();
            match base {
                BufContent::Null => None,
                BufContent::Static(0) => None,
                _ => Some(InputWindow { base, cur: pos, end: b.used() }),
            }
        },
        None => None,
    }
}

/// The cursor of a parser over the buffer of handle `buf`, placed at its start.
pub fn xmlBufResetInput(reg: &BufRegistry, buf: usize) -> (r: Option<InputWindow<'_>>)
    requires
        reg.wf(),
    ensures
        r is None <==> !reg@.contains_key(buf) || reg@[buf].error || reg@[buf].static_addr
            == Some(0usize),
        r matches Some(w) ==> w.cur == 0 && w.end == reg@[buf].len && (if reg@[buf].is_static() {
            w.base == BufContent::Static(reg@[buf].static_addr->0)
        } else {
            w.base matches BufContent::Owned(s) && s@ == reg@[buf].storage.subrange(
                reg@[buf].offset as int,
                reg@[buf].storage.len() as int,
            )
        }),
{
    xmlBufUpdateInput(reg, buf, 0)
}

/// The capacity of a buffer made from a legacy record without storage.
pub const FROM_BUFFER_DEFAULT_SIZE: usize = 50;

/// Registers a new buffer holding a copy of the content of a legacy record,
/// with the record's capacity, or an empty one where the record has no
/// storage. Returns its handle; 0 where no record was given or the handles
/// have run out. The record is left as it is.
pub fn xmlBufFromBuffer(reg: &mut BufRegistry, buffer: Option<&XmlBuffer>) -> (r: usize)
    requires
        old(reg).wf(),
        buffer matches Some(b) ==> b@.valid(),
    ensures
        final(reg).wf(),
        r == 0 <==> buffer is None || old(reg).next() == usize::MAX,
        r == 0 ==> final(reg)@ == old(reg)@,
        r != 0 ==> r == old(reg).next() && !old(reg)@.contains_key(r) && final(reg)@ == old(
            reg,
        )@.insert(
            r,
            if buffer->0@.mem is None {
                new_model(FROM_BUFFER_DEFAULT_SIZE as nat)
            } else {
                filled_model(buffer->0@.content(), buffer->0@.size)
            },
        ),
{
    let record = match buffer {
        None => {
            return 0;
        },
        Some(b) => b,
    };
    let b = match &record.mem {
        None => match XmlBuf::new(FROM_BUFFER_DEFAULT_SIZE) {
            Ok(b) => b,
            Err(_) => {
                return 0;
            },
        },
        Some(v) => {
            let all = v.as_slice();
            let content = &all[record.start..record.start + record.use_ as usize];
            XmlBuf::with_content(content, record.size as usize)
        },
    };
    reg.register(b)
}

/// What became of a buffer handed back as a legacy record.
pub enum Handover {
    /// No buffer has the handle; nothing changed.
    Missing,
    /// The buffer was static, in error or too long for a record: it is freed,
    /// and the record is to be left without storage.
    Refused,
    /// The record that now owns the buffer's storage.
    Moved(XmlBuffer),
}

/// The record that takes over the storage of buffer `m`.
pub open spec fn handed_over(m: BufModel) -> LegacyModel {
    LegacyModel {
        mem: Some(m.storage),
        start: m.offset,
        used: m.len,
        size: if m.capacity >= LEGACY_MAX {
            LEGACY_MAX as nat
        } else {
            m.capacity + 1
        },
        alloc: XML_BUFFER_ALLOC_IO,
    }
}

/// Removes the buffer of handle `buf` from the table and moves its storage
/// into a legacy record, window and all; refuses a static buffer, one in
/// error, or one whose length reaches `LEGACY_MAX`.
pub fn xmlBufBackToBuffer(reg: &mut BufRegistry, buf: usize) -> (r: Handover)
    requires
        old(reg).wf(),
    ensures
        final(reg).wf(),
        final(reg).next() == old(reg).next(),
        !old(reg)@.contains_key(buf) ==> final(reg)@ == old(reg)@,
        (r is Missing) <==> !old(reg)@.contains_key(buf),
        old(reg)@.contains_key(buf) ==> final(reg)@ == old(reg)@.remove(buf),
        old(reg)@.contains_key(buf) && !(old(reg)@[buf].error || old(reg)@[buf].is_static()
            || old(reg)@[buf].len >= LEGACY_MAX) ==> r is Moved,
        old(reg)@.contains_key(buf) ==> ((r is Refused) <==> (old(reg)@[buf].error
            || old(reg)@[buf].is_static() || old(reg)@[buf].len >= LEGACY_MAX)),
        r matches Handover::Moved(x) ==> x@.valid() && x@ == handed_over(old(reg)@[buf]),
{
    if buf == 0 {
        return Handover::Missing;
    }
    let ghost before = reg.buffers@;
    proof {
        lemma_models_remove(reg.buffers@, buf);
    }
    let b = match take(reg, buf) {
        None => {
            assert(reg.buffers@ =~= before);
            return Handover::Missing;
        },
        Some(b) => b,
    };
    assert forall|h: usize| #[trigger] reg.buffers@.contains_key(h) implies 0 < h < reg.counter
        && reg.buffers@[h].wf() by {
        assert(before.contains_key(h));
    }
    proof {
        b.lemma_valid();
    }
    if b.is_error() || b.is_static() || b.used() >= LEGACY_MAX as usize {
        return Handover::Refused;
    }
    let used = b.used() as u32;
    let size = if b.capacity() >= LEGACY_MAX as usize {
        LEGACY_MAX
    } else {
        (b.capacity() + 1) as u32
    };
    let start = b.offset();
    let storage = b.into_storage();
    assert(storage@.len() == storage.len());
    Handover::Moved(
        XmlBuffer { mem: Some(storage), start, use_: used, size, alloc: XML_BUFFER_ALLOC_IO },
    )
}

/// Records that an allocation made on behalf of the buffer of handle `buf`
/// failed: a writable buffer enters the out-of-memory state for good.
pub fn xmlBufSetOutOfMemory(reg: &mut BufRegistry, buf: usize)
    requires
        old(reg).wf(),
    ensures
        final(reg).wf(),
        final(reg).next() == old(reg).next(),
        old(reg)@.contains_key(buf) ==> final(reg)@ == old(reg)@.insert(
            buf,
            if old(reg)@[buf].writable() {
                BufModel { error: true, ..old(reg)@[buf] }
            } else {
                old(reg)@[buf]
            },
        ),
        !old(reg)@.contains_key(buf) ==> final(reg)@ == old(reg)@,
{
    if buf == 0 {
        return ;
    }
    match take(reg, buf) {
        None => {},
        Some(mut b) => {
            b.set_oom();
            put_back(reg, buf, b);
            assert(models(old(reg).buffers@.remove(buf)).insert(buf, b@) =~= old(reg)@.insert(
                buf,
                b@,
            ));
        },
    }
}

/// The length of the whole storage of the buffer of handle `buf`: what a
/// record that takes it over must hold. 0 where the handle is unknown.
pub fn xmlBufStorageLen(reg: &BufRegistry, buf: usize) -> (r: usize)
    requires
        reg.wf(),
    ensures
        r == (if reg@.contains_key(buf) {
            reg@[buf].storage.len()
        } else {
            0
        }),
{
    if buf == 0 {
        return 0;
    }
    match get_buffers(reg).get(&buf) {
        Some(b) => b.storage_len(),
        None => 0,
    }
}

} // verus!
