//! Properties that hold across the operations of the buffers, stated over
//! the same models that the operations' contracts use.
use vstd::prelude::*;
use crate::buf::{
    add_len_model, add_len_result, add_model, add_result, detached_model, empty_model,
    grow_model, grow_result, new_model, shrink_model, shrink_ok, static_model, BufError,
    BufModel,
};
use crate::registry::BufRegistry;
use crate::legacy::{
    append_all, append_model, escape_pieces, quote_pieces, quoted, LegacyModel, DQ, SQ,
};

verus! {

/// A new buffer is empty and has at least the room asked for.
pub proof fn lemma_created_empty(size: nat)
    ensures
        new_model(size).valid(),
        new_model(size).len == 0,
        new_model(size).avail() >= size,
{
}

/// Adding bytes to a new buffer with room for them, then reading the
/// logical length's worth of content, gives the bytes back.
pub proof fn lemma_add_round_trip(capacity: nat, b: Seq<u8>)
    requires
        b.len() <= capacity,
    ensures
        add_result(new_model(capacity), Some(b), b.len()) is Ok,
        add_model(new_model(capacity), Some(b), b.len()).len == b.len(),
        add_model(new_model(capacity), Some(b), b.len()).data() == b,
{
    let r = add_model(new_model(capacity), Some(b), b.len());
    assert(r.data() =~= b);
}

/// Emptying an empty buffer leaves it empty, and emptying twice is emptying
/// once; shrinking by nothing changes nothing and reports nothing.
pub proof fn lemma_empty_and_shrink_zero(m: BufModel)
    requires
        m.valid(),
    ensures
        m.len == 0 ==> empty_model(m).len == 0,
        empty_model(m).valid(),
        empty_model(empty_model(m)) == empty_model(m),
        !shrink_ok(m, 0),
        shrink_model(m, 0) == m,
{
    if m.writable() {
        let e = empty_model(m);
        assert(e.storage.update(0, 0u8) =~= e.storage);
    }
}

/// `grow` keeps a buffer well formed and its content as it was.
pub proof fn lemma_grow_keeps_content(m: BufModel, n: nat)
    requires
        m.valid(),
    ensures
        grow_model(m, n).valid(),
        grow_model(m, n).data() == m.data(),
{
    let g = grow_model(m, n);
    if m.writable() && n > m.capacity - m.len {
        assert(g.data() =~= m.data());
    }
}

/// `add` keeps a buffer well formed and extends its content: by the bytes on
/// success, not at all on failure.
pub proof fn lemma_add_extends_content(m: BufModel, b: Seq<u8>)
    requires
        m.valid(),
    ensures
        add_model(m, Some(b), b.len()).valid(),
        add_result(m, Some(b), b.len()) is Ok ==> add_model(m, Some(b), b.len()).data() == m.data()
            + b,
        add_result(m, Some(b), b.len()) is Err ==> add_model(m, Some(b), b.len()).data()
            == m.data(),
{
    let r = add_model(m, Some(b), b.len());
    if m.writable() && b.len() > 0 {
        let g = grow_model(m, b.len());
        if m.writable() && b.len() > m.capacity - m.len {
            assert(g.data() =~= m.data());
        }
        if !g.error {
            assert(r.data() =~= g.data() + b);
            assert(r.storage[(r.offset + r.len) as int] == 0);
        }
    } else if b.len() == 0 {
        assert(m.data() + b =~= m.data());
    }
}

/// One step of a sequence of calls that only make a buffer grow.
pub enum GrowthStep {
    Add(Seq<u8>),
    Grow(nat),
}

pub open spec fn apply_step(m: BufModel, step: GrowthStep) -> BufModel {
    match step {
        GrowthStep::Add(b) => add_model(m, Some(b), b.len()),
        GrowthStep::Grow(n) => grow_model(m, n),
    }
}

pub open spec fn apply_steps(m: BufModel, steps: Seq<GrowthStep>) -> BufModel
    decreases steps.len(),
{
    if steps.len() == 0 {
        m
    } else {
        apply_step(apply_steps(m, steps.drop_last()), steps.last())
    }
}

/// Growth never truncates: after any sequence of `add` and `grow` calls the
/// content that was there before is still the start of the content.
pub proof fn lemma_growth_never_truncates(m: BufModel, steps: Seq<GrowthStep>)
    requires
        m.valid(),
    ensures
        apply_steps(m, steps).valid(),
        m.data().is_prefix_of(apply_steps(m, steps).data()),
    decreases steps.len(),
{
    if steps.len() > 0 {
        lemma_growth_never_truncates(m, steps.drop_last());
        let p = apply_steps(m, steps.drop_last());
        match steps.last() {
            GrowthStep::Add(b) => {
                lemma_add_extends_content(p, b);
            },
            GrowthStep::Grow(n) => {
                let g = grow_model(p, n);
                if p.writable() && n > p.capacity - p.len {
                    assert(g.data() =~= p.data());
                }
            },
        }
    } else {
        assert(m.data().is_prefix_of(m.data()));
    }
}

/// An overflow is what a `grow` past the size limit ends in, and it sticks:
/// in an error state every mutator fails and changes nothing.
pub proof fn lemma_error_sticks(m: BufModel, n: nat, b: Option<Seq<u8>>, k: nat)
    ensures
        grow_result(m, n) == Err::<(), BufError>(BufError::CapacityExceeded) ==> grow_model(
            m,
            n,
        ).error,
        m.error ==> grow_result(m, n) is Err && grow_model(m, n) == m,
        m.error ==> add_result(m, b, k) is Err && add_model(m, b, k) == m,
        m.error ==> add_len_result(m, k) is Err && add_len_model(m, k) == m,
        m.error ==> !shrink_ok(m, n) && shrink_model(m, n) == m,
        m.error ==> empty_model(m) == m,
        m.error ==> !m.writable(),
{
}

/// A static buffer refuses every change, `detach` included, and keeps the
/// caller's address and length.
pub proof fn lemma_static_read_only(addr: usize, size: nat, n: nat, b: Option<Seq<u8>>, k: nat)
    ensures
        static_model(addr, size).valid(),
        static_model(addr, size).static_addr == Some(addr),
        static_model(addr, size).len == size,
        !static_model(addr, size).writable(),
        add_result(static_model(addr, size), b, k) == Err::<(), BufError>(BufError::NotWritable),
        add_model(static_model(addr, size), b, k) == static_model(addr, size),
        grow_result(static_model(addr, size), n) == Err::<(), BufError>(BufError::NotWritable),
        grow_model(static_model(addr, size), n) == static_model(addr, size),
        !shrink_ok(static_model(addr, size), n),
        shrink_model(static_model(addr, size), n) == static_model(addr, size),
{
}

/// What `detach` hands out is the content and its terminator, `use + 1`
/// bytes; the buffer is left empty.
pub proof fn lemma_detach_takes_all(m: BufModel)
    requires
        m.valid(),
        m.writable(),
    ensures
        m.data().push(0u8).len() == m.len + 1,
        m.data().push(0u8) == m.storage.subrange(m.offset as int, (m.offset + m.len + 1) as int),
        detached_model(m).valid(),
        detached_model(m).len == 0,
{
    assert(m.data().push(0u8) =~= m.storage.subrange(
        m.offset as int,
        (m.offset + m.len + 1) as int,
    ));
}

/// Appending pieces one by one, where all of them fit, appends them joined.
proof fn lemma_append_all_fits(m: LegacyModel, ps: Seq<Seq<u8>>)
    requires
        m.valid(),
        m.mem is Some,
        m.used + ps.flatten_alt().len() < m.size,
    ensures
        append_all(m, ps).valid(),
        append_all(m, ps).mem is Some,
        append_all(m, ps).start == m.start,
        append_all(m, ps).size == m.size,
        append_all(m, ps).used == m.used + ps.flatten_alt().len(),
        append_all(m, ps).content() == m.content() + ps.flatten_alt(),
    decreases ps.len(),
{
    if ps.len() == 0 {
        assert(m.content() + ps.flatten_alt() =~= m.content());
    } else {
        let init = ps.drop_last();
        let p = ps.last();
        lemma_append_all_fits(m, init);
        let a = append_all(m, init);
        let r = append_model(a, p);
        if p.len() > 0 {
            assert(r.content() =~= a.content() + p);
        }
        assert(m.content() + init.flatten_alt() + p =~= m.content() + ps.flatten_alt());
    }
}

/// Writing a quoted string into a record with room for all of it appends
/// exactly its quoted form.
pub proof fn lemma_quoted_appended(m: LegacyModel, s: Seq<u8>)
    requires
        m.valid(),
        m.mem is Some,
        m.used + quoted(s).len() < m.size,
    ensures
        append_all(m, quote_pieces(s)).content() == m.content() + quoted(s),
{
    quote_pieces(s).lemma_flatten_and_flatten_alt_are_equivalent();
    lemma_append_all_fits(m, quote_pieces(s));
}

/// The quoted form of a text: in double quotes with its double quotes escaped
/// where it holds both kinds of quote; in single quotes, unescaped, where it
/// holds double quotes only; else in double quotes, unescaped.
pub proof fn lemma_quoted_forms(s: Seq<u8>)
    ensures
        s.contains(DQ) && s.contains(SQ) ==> quoted(s) == seq![DQ] + escape_pieces(s).flatten()
            + seq![DQ],
        s.contains(DQ) && !s.contains(SQ) ==> quoted(s) == seq![SQ] + s + seq![SQ],
        !s.contains(DQ) ==> quoted(s) == seq![DQ] + s + seq![DQ],
{
    let ps = quote_pieces(s);
    ps.lemma_flatten_and_flatten_alt_are_equivalent();
    if s.contains(DQ) && s.contains(SQ) {
        let e = escape_pieces(s);
        e.lemma_flatten_and_flatten_alt_are_equivalent();
        lemma_flatten_alt_concat(seq![seq![DQ]], e);
        lemma_flatten_alt_concat(seq![seq![DQ]] + e, seq![seq![DQ]]);
        reveal_with_fuel(Seq::flatten_alt, 2);
        assert(seq![seq![DQ]].drop_last() =~= Seq::<Seq<u8>>::empty());
        assert(seq![seq![DQ]].flatten_alt() =~= seq![DQ]);
    } else {
        let q = if s.contains(DQ) {
            SQ
        } else {
            DQ
        };
        assert(ps =~= seq![seq![q], s, seq![q]]);
        reveal_with_fuel(Seq::flatten_alt, 4);
        assert(ps.drop_last() =~= seq![seq![q], s]);
        assert(ps.drop_last().drop_last() =~= seq![seq![q]]);
        assert(ps.drop_last().drop_last().drop_last() =~= Seq::<Seq<u8>>::empty());
        assert(ps.flatten_alt() =~= seq![q] + s + seq![q]);
    }
}

/// Joining two lists of pieces joins what each of them joins.
proof fn lemma_flatten_alt_concat(a: Seq<Seq<u8>>, b: Seq<Seq<u8>>)
    ensures
        (a + b).flatten_alt() == a.flatten_alt() + b.flatten_alt(),
    decreases b.len(),
{
    if b.len() == 0 {
        assert(a + b =~= a);
        assert(a.flatten_alt() + b.flatten_alt() =~= a.flatten_alt());
    } else {
        lemma_flatten_alt_concat(a, b.drop_last());
        assert((a + b).drop_last() =~= a + b.drop_last());
        assert((a + b).last() == b.last());
        assert(a.flatten_alt() + b.drop_last().flatten_alt() + b.last() =~= a.flatten_alt() + (
        b.drop_last().flatten_alt() + b.last()));
    }
}

/// A freed handle is unknown from then on, so every operation on it gets the
/// "not found" sentinel; and it is never given out again, for every handle
/// that the table knows is below the next one it gives out.
pub proof fn lemma_freed_handle_unknown(reg: BufRegistry, h: usize)
    requires
        reg.wf(),
        reg@.contains_key(h),
    ensures
        !reg@.remove(h).contains_key(h),
        0 < h < reg.next(),
{
    reg.lemma_wf();
}

} // verus!
