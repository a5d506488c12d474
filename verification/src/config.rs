//! The settings of a run and the sizes that follow from them.
use vstd::arithmetic::power2::pow2;
use vstd::prelude::*;
use crate::boot::Sizes;
use crate::text::{ascii_lower, dec, lower_is, parse_u32, parse_u64, parsed, push_dec, same_str};

verus! {

/// How many slots the heap has unless something else is asked for.
pub const DEFAULT_HEAP: u32 = 0x80_0000;

/// How many lanes there are unless something else is asked for.
pub const DEFAULT_NTHREADS: u32 = 8;

/// How many redexes a lane has room for unless something else is asked for.
pub const DEFAULT_RSPAN: u32 = 1024;

/// How many redexes the lanes share room for.
pub const DEFAULT_OVERFLOW: u32 = 0x40_0000;

/// How many steps a dispatch makes unless something else is asked for.
pub const STEPS_PER_DISPATCH: u32 = 8192;

/// How long a device rests between two workers, in milliseconds, unless
/// something else is asked for.
pub const DEFAULT_RECYCLE_MS: u64 = 2000;

/// How long a lost device rests, in milliseconds, unless something else is asked
/// for.
pub const DEFAULT_COOLDOWN_MS: u64 = 8000;

/// The number that a setting gives; `default` where there is no setting or it is
/// no number up to `max`.
pub open spec fn setting(var: Option<&str>, max: nat, default: nat) -> nat {
    match var {
        Some(s) => match parsed(s@, max) {
            Some(n) => n,
            None => default,
        },
        None => default,
    }
}

/// The 32-bit number that a setting gives, or `default`.
pub fn u32_setting(var: Option<&str>, default: u32) -> (r: u32)
    ensures
        r == setting(var, u32::MAX as nat, default as nat),
{
    match var {
        Some(s) => match parse_u32(s) {
            Some(n) => n,
            None => default,
        },
        None => default,
    }
}

/// The 64-bit number that a setting gives, or `default`.
pub fn u64_setting(var: Option<&str>, default: u64) -> (r: u64)
    ensures
        r == setting(var, u64::MAX as nat, default as nat),
{
    match var {
        Some(s) => match parse_u64(s, 0xffff_ffff_ffff_ffff) {
            Some(n) => n,
            None => default,
        },
        None => default,
    }
}

/// Whether a setting is switched on: it is, where it is `1`.
pub fn is_on(var: Option<&str>) -> (r: bool)
    ensures
        r == (var matches Some(s) && s@ == "1"@),
{
    match var {
        Some(s) => same_str(s, "1"),
        None => false,
    }
}

/// How many nodes fit in a buffer of this many bytes, as far as 32 bits can
/// count.
pub open spec fn max_nodes(max_binding: u64) -> int {
    if max_binding / 8 <= u32::MAX {
        (max_binding / 8) as int
    } else {
        u32::MAX as int
    }
}

/// How many slots a heap of `want` slots has at least, in a buffer of this many
/// bytes.
pub open spec fn heap_floor(max_binding: u64, want: u32) -> int {
    let room = max_nodes(max_binding);
    let n = if want < room {
        want as int
    } else {
        room
    };
    if n > 16 {
        n
    } else {
        16
    }
}

/// How many slots the heap has: the slots that are wanted and that the device has
/// room for, at least sixteen, rounded up to a power of two.
pub fn heap_len_for(max_binding: u64, want: u32) -> (r: u32)
    requires
        heap_floor(max_binding, want) <= 0x8000_0000,
    ensures
        heap_floor(max_binding, want) <= r < 2 * heap_floor(max_binding, want),
        exists|k: nat| r == #[trigger] pow2(k),
{
    let words = max_binding / 8;
    let room: u32 = if words <= 0xffff_ffff { words as u32 } else { 0xffff_ffff };
    let n = if want < room { want } else { room };
    let n = if n > 16 { n } else { 16 };
    let mut r: u32 = 16;
    let ghost mut k: nat = 4;
    proof {
        vstd::arithmetic::power2::lemma2_to64();
    }
    while r < n
        invariant
            16 <= n <= 0x8000_0000,
            16 <= r < 2 * n,
            r == pow2(k),
        decreases 2 * n - r,
    {
        r = r * 2;
        proof {
            vstd::arithmetic::power2::lemma_pow2_unfold(k + 1);
            k = k + 1;
        }
    }
    r
}

/// As many lanes as are wanted, at least one, and at most one for sixteen slots
/// of the heap.
pub open spec fn lanes(heap: u32, want: u32) -> u32 {
    if want < 1 || heap < 16 {
        1
    } else if want <= heap / 16 {
        want
    } else {
        heap / 16
    }
}

/// How many lanes there are: as many as are wanted, at least one, and at most one
/// for sixteen slots of the heap.
pub fn nthreads_len(heap: u32, want: u32) -> (r: u32)
    ensures
        r == lanes(heap, want),
{
    let cap = if heap / 16 >= 1 { heap / 16 } else { 1 };
    if want < 1 {
        1
    } else if want > cap {
        cap
    } else {
        want
    }
}

/// How many bytes the largest of the device's buffers takes.
pub open spec fn needed_bytes(sizes: Sizes, book_words: u32) -> int {
    let node = 8 * sizes.heap;
    let rbag = 8 * sizes.rbag_len();
    let book = 4 * book_words;
    let a = if node >= rbag {
        node
    } else {
        rbag as int
    };
    if a >= book {
        a
    } else {
        book
    }
}

/// What is said of a device whose buffers are too small.
pub open spec fn storage_text(max_binding: u64, need: nat) -> Seq<char> {
    "adapter max_storage_buffer_binding_size="@ + dec(max_binding as nat) + " < needed "@ + dec(
        need,
    ) + " (lower HVM_WGPU_HEAP)"@
}

/// An error where the largest buffer that is needed is larger than the device
/// can bind.
pub fn check_storage(sizes: &Sizes, book_words: u32, max_binding: u64) -> (r: Result<(), String>)
    requires
        sizes.rbag_len() <= u32::MAX,
    ensures
        match r {
            Ok(_) => needed_bytes(*sizes, book_words) <= max_binding,
            Err(e) => needed_bytes(*sizes, book_words) > max_binding && e@ == storage_text(
                max_binding,
                needed_bytes(*sizes, book_words) as nat,
            ),
        },
{
    proof {
        assert(0 <= sizes.nthreads * sizes.rspan) by (nonlinear_arith)
            requires
                sizes.nthreads >= 0,
                sizes.rspan >= 0,
        ;
    }
    let node = sizes.heap as u64 * 8;
    let rbag = (sizes.nthreads * sizes.rspan + sizes.overflow) as u64 * 8;
    let book = book_words as u64 * 4;
    let need = if node >= rbag { node } else { rbag };
    let need = if need >= book { need } else { book };
    if need > max_binding {
        let mut e = "adapter max_storage_buffer_binding_size=".to_owned();
        push_dec(&mut e, max_binding);
        e.append(" < needed ");
        push_dec(&mut e, need);
        e.append(" (lower HVM_WGPU_HEAP)");
        return Err(e);
    }
    Ok(())
}

/// An error where the device lacks 64-bit integers or atomics on them.
pub fn check_features(int64: bool, int64_atomics: bool) -> (r: Result<(), String>)
    ensures
        match r {
            Ok(_) => int64 && int64_atomics,
            Err(e) => !(int64 && int64_atomics) && e@
                == "this adapter lacks SHADER_INT64_ATOMIC_ALL_OPS; run-wgpu needs 64-bit pair atomics so parallel lanes do not tear CON/DUP ports (which looks like cloning a non-affine REF)"@,
        },
{
    if int64 && int64_atomics {
        Ok(())
    } else {
        Err(
            "this adapter lacks SHADER_INT64_ATOMIC_ALL_OPS; run-wgpu needs 64-bit pair atomics so parallel lanes do not tear CON/DUP ports (which looks like cloning a non-affine REF)".to_owned(),
        )
    }
}

/// The interface that the device is driven through.
#[derive(Clone, Copy, PartialEq, Eq, Structural, Debug)]
pub enum Backend {
    Vulkan,
    Dx12,
    Gl,
}

/// The interface that a setting names, in capital or small letters; Vulkan where
/// it names no other.
pub open spec fn named_backend(want: Seq<char>) -> Backend {
    let w = ascii_lower(want);
    if w == "dx12"@ || w == "d3d12"@ {
        Backend::Dx12
    } else if w == "gl"@ || w == "gles"@ {
        Backend::Gl
    } else {
        Backend::Vulkan
    }
}

/// The interface that a setting names.
pub fn backend_of(want: &str) -> (r: Backend)
    ensures
        r == named_backend(want@),
{
    if lower_is(want, "dx12") || lower_is(want, "d3d12") {
        Backend::Dx12
    } else if lower_is(want, "gl") || lower_is(want, "gles") {
        Backend::Gl
    } else {
        Backend::Vulkan
    }
}

/// A heap and lanes that were chosen together fit: every lane has sixteen slots
/// of the heap at least, but for a single lane.
pub proof fn law_lanes_have_room(heap: u32, want: u32)
    ensures
        lanes(heap, want) >= 1,
        lanes(heap, want) == 1 || 16 * lanes(heap, want) <= heap,
{
}

} // verus!
