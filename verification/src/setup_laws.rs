//! What holds of the settings of a run, of the sizes that follow from them, and of
//! loading a book.
use vstd::arithmetic::logarithm::lemma_log0;
use vstd::arithmetic::power2::{lemma2_to64, pow2};
use vstd::prelude::*;
use crate::boot::{load_error, Sizes};
use crate::config::{heap_floor, lanes, named_backend, needed_bytes, setting, storage_text, Backend};
use crate::hvm::{Book, Def, Numb, Pair, Port};
use crate::net::remapped;
use crate::pack::{first_too_large, pack_error};
use crate::reading::{decimal_of, is_decimal, law_dec_value, law_lower, law_parsed, lemma_digits_value, numeral_value};
use crate::text::{ascii_lower, dec};
use crate::threads::{built_log2, capped_log2, wanted_threads};

verus! {

/// What a setting gives: the number that it is a numeral of, if that is not too
/// large, and otherwise what holds unless something else is asked for.
pub proof fn law_setting(s: &str, max: nat, default: nat)
    ensures
        setting(None, max, default) == default,
        is_decimal(s@) && numeral_value(s@, 10) <= max ==> setting(Some(s), max, default)
            == numeral_value(s@, 10),
        is_decimal(s@) && numeral_value(s@, 10) > max ==> setting(Some(s), max, default) == default,
        s@.len() > 0 && s@[0] == '+' && is_decimal(s@.skip(1)) && numeral_value(s@.skip(1), 10)
            <= max ==> setting(Some(s), max, default) == numeral_value(s@.skip(1), 10),
        !is_decimal(s@) && !(s@.len() > 0 && s@[0] == '+' && is_decimal(s@.skip(1))) ==> setting(
            Some(s),
            max,
            default,
        ) == default,
{
    law_parsed(s@, max);
    if is_decimal(s@) {
        lemma_digits_value(s@);
    }
    if s@.len() > 0 && s@[0] == '+' && is_decimal(s@.skip(1)) {
        law_parsed(s@.skip(1), max);
        lemma_digits_value(s@.skip(1));
        assert(seq!['+'] + s@.skip(1) =~= s@);
    }
}

/// A heap has at least as many slots as are wanted, as there is room for with eight
/// bytes each, and as 32 bits can count, whichever is least, and sixteen in any case;
/// and there is a reason not to have more.
pub proof fn law_heap_floor(max_binding: u64, want: u32)
    ensures
        ({
            let n = heap_floor(max_binding, want);
            &&& n >= 16
            &&& n > 16 ==> n <= want && 8 * n <= max_binding
            &&& n == 16 || n == want || n == 0xFFFF_FFFF || 8 * n <= max_binding < 8 * (n + 1)
            &&& want <= 16 || max_binding < 136 ==> n == 16
            &&& want >= 16 && 8 * want <= max_binding ==> n == want
            &&& want >= 16 && 8 * want > max_binding >= 128 ==> 8 * n <= max_binding < 8 * (n + 1)
        }),
{
}

/// There are as many lanes as are wanted where each has sixteen slots of the heap;
/// otherwise as many as can have sixteen slots; and one in any case.
pub proof fn law_lanes(heap: u32, want: u32)
    ensures
        want >= 1 && 16 * want <= heap ==> lanes(heap, want) == want,
        want >= 1 && 16 * want > heap >= 16 ==> 16 * lanes(heap, want) <= heap < 16 * (lanes(
            heap,
            want,
        ) + 1),
        want == 0 || heap < 16 ==> lanes(heap, want) == 1,
{
}

/// The bytes that are needed are those of the largest buffer: eight for each node and
/// for each redex, four for each word of the book.
pub proof fn law_needed_bytes(sizes: Sizes, book_words: u32)
    ensures
        ({
            let need = needed_bytes(sizes, book_words);
            let redexes = sizes.nthreads * sizes.rspan + sizes.overflow;
            &&& need >= 8 * sizes.heap
            &&& need >= 8 * redexes
            &&& need >= 4 * book_words
            &&& need == 8 * sizes.heap || need == 8 * redexes || need == 4 * book_words
        }),
{
    assert(sizes.nthreads * sizes.rspan >= 0) by (nonlinear_arith)
        requires
            sizes.nthreads >= 0,
            sizes.rspan >= 0,
    ;
}

/// What is said of a device whose buffers are too small names the bytes that it has
/// and those that are needed.
pub proof fn law_storage_said(max_binding: u64, need: nat)
    ensures
        exists|a: Seq<char>, b: Seq<char>| #[trigger]
            decimal_of(a, max_binding as int) && #[trigger] decimal_of(b, need as int)
                && storage_text(max_binding, need) == "adapter max_storage_buffer_binding_size="@
                + a + " < needed "@ + b + " (lower HVM_WGPU_HEAP)"@,
{
    law_dec_value(max_binding as nat);
    law_dec_value(need);
    assert(decimal_of(dec(max_binding as nat), max_binding as int));
    assert(decimal_of(dec(need), need as int));
}

/// Capital and small letters name the same interface; two names stand for each but
/// Vulkan, which every other text stands for.
pub proof fn law_named_backend(want: Seq<char>)
    ensures
        named_backend(ascii_lower(want)) == named_backend(want),
        named_backend("dx12"@) == Backend::Dx12,
        named_backend("d3d12"@) == Backend::Dx12,
        named_backend("gl"@) == Backend::Gl,
        named_backend("gles"@) == Backend::Gl,
        ({
            let w = ascii_lower(want);
            w != "dx12"@ && w != "d3d12"@ && w != "gl"@ && w != "gles"@ <==> named_backend(want)
                == Backend::Vulkan
        }),
{
    law_lower(want);
    reveal_strlit("dx12");
    reveal_strlit("d3d12");
    reveal_strlit("gl");
    reveal_strlit("gles");
    law_lower("dx12"@);
    law_lower("d3d12"@);
    law_lower("gl"@);
    law_lower("gles"@);
    assert(ascii_lower("dx12"@) =~= "dx12"@);
    assert(ascii_lower("d3d12"@) =~= "d3d12"@);
    assert(ascii_lower("gl"@) =~= "gl"@);
    assert(ascii_lower("gles"@) =~= "gles"@);
    assert("gles"@[0] == 'g' && "dx12"@[0] == 'd');
}

/// The worker threads of an interpreter: as many as are asked for; else as many as
/// the setting is a numeral of; else a power of two by the cores.
pub proof fn law_wanted_threads(asked: u32, s: &str, cores: int)
    ensures
        wanted_threads(Some(asked), None, cores) == asked,
        wanted_threads(Some(asked), Some(s), cores) == asked,
        is_decimal(s@) && numeral_value(s@, 10) <= u32::MAX ==> wanted_threads(
            None,
            Some(s),
            cores,
        ) == numeral_value(s@, 10),
        wanted_threads(None, None, cores) == pow2(capped_log2(cores, 3) as nat),
        !is_decimal(s@) && !(s@.len() > 0 && s@[0] == '+' && is_decimal(s@.skip(1)))
            ==> wanted_threads(None, Some(s), cores) == pow2(capped_log2(cores, 3) as nat),
{
    law_setting(s, u32::MAX as nat, pow2(capped_log2(cores, 3) as nat));
}

/// The worker threads that the C runtime is built with: a setting that is a numeral
/// counts, eight at most; anything else leaves it to the cores.
pub proof fn law_built_threads(s: &str, cores: int)
    ensures
        built_log2(None, cores) == capped_log2(cores, 4),
        is_decimal(s@) && numeral_value(s@, 10) <= 8 ==> built_log2(Some(s), cores) == numeral_value(
            s@,
            10,
        ),
        is_decimal(s@) && 8 <= numeral_value(s@, 10) <= u32::MAX ==> built_log2(Some(s), cores) == 8,
        is_decimal(s@) && numeral_value(s@, 10) > u32::MAX ==> built_log2(Some(s), cores)
            == capped_log2(cores, 4),
        !is_decimal(s@) && !(s@.len() > 0 && s@[0] == '+' && is_decimal(s@.skip(1))) ==> built_log2(
            Some(s),
            cores,
        ) == capped_log2(cores, 4),
{
    law_parsed(s@, u32::MAX as nat);
    if is_decimal(s@) {
        lemma_digits_value(s@);
    }
}

/// A definition has more than 1024 nodes or more than 1024 variables.
pub open spec fn over_limit(def: Def) -> bool {
    def.node@.len() > 1024 || def.vars > 1024
}

/// A book that is empty is refused, and so is one with a definition that is over the
/// limit, of which the first is named with its nodes and variables; no other is.
pub proof fn law_refused_books(defs: Seq<Def>, i: int)
    ensures
        defs.len() == 0 ==> pack_error(defs) == Some("empty book"@),
        defs.len() > 0 && (forall|j: int|
            0 <= j < defs.len() ==> !over_limit(#[trigger] defs[j])) ==> pack_error(defs) is None,
        0 <= i < defs.len() && over_limit(defs[i]) && (forall|j: int|
            0 <= j < i ==> !over_limit(#[trigger] defs[j])) ==> exists|
            a: Seq<char>,
            b: Seq<char>,
            c: Seq<char>,
        |
            #[trigger] decimal_of(a, defs[i].node@.len() as int) && #[trigger] decimal_of(
                b,
                defs[i].vars as int,
            ) && #[trigger] decimal_of(c, 1024) && pack_error(defs) == Some(
                "def '"@ + defs[i].name@ + "' too large for wgpu v1 (nodes="@ + a + ", vars="@ + b
                    + ", max="@ + c + ")"@,
            ),
{
    if 0 <= i < defs.len() && over_limit(defs[i]) && (forall|j: int|
        0 <= j < i ==> !over_limit(#[trigger] defs[j])) {
        assert(first_too_large(defs, i)) by {
            assert forall|j: int| 0 <= j < i implies !crate::pack::too_large(#[trigger] defs[j]) by {
                assert(!over_limit(defs[j]));
            }
        }
        let k = choose|k: int| first_too_large(defs, k);
        assert(first_too_large(defs, k));
        if k < i {
            assert(!over_limit(defs[k]));
        } else if i < k {
            assert(!crate::pack::too_large(defs[i]));
        }
        law_dec_value(defs[i].node@.len());
        law_dec_value(defs[i].vars as nat);
        law_dec_value(1024);
        assert(decimal_of(dec(defs[i].node@.len()), defs[i].node@.len() as int));
        assert(decimal_of(dec(defs[i].vars as nat), defs[i].vars as int));
        assert(decimal_of(dec(1024), 1024));
    }
    if forall|j: int| 0 <= j < defs.len() ==> !over_limit(#[trigger] defs[j]) {
        if exists|k: int| first_too_large(defs, k) {
            let k = choose|k: int| first_too_large(defs, k);
            assert(!over_limit(defs[k]));
        }
    }
}

/// A book without a definition that is called `main` cannot be loaded, whatever else
/// is wrong with it; one that has it is refused exactly where packing it is.
pub proof fn law_loading_refused(book: Book, i: int)
    ensures
        (forall|j: int| 0 <= j < book.defs@.len() ==> (#[trigger] book.defs@[j]).name@ != "main"@)
            ==> load_error(book) == Some("missing @main"@),
        0 <= i < book.defs@.len() && book.defs@[i].name@ == "main"@ ==> load_error(book)
            == pack_error(book.defs@),
    decreases i,
{
    if 0 <= i < book.defs@.len() && book.defs@[i].name@ == "main"@ {
        if forall|j: int| 0 <= j < i ==> (#[trigger] book.defs@[j]).name@ != "main"@ {
            assert(book.is_first_named("main"@, i));
        } else {
            let j = choose|j: int|
                0 <= j < i && (#[trigger] book.defs@[j]).name@ == "main"@;
            law_loading_refused(book, j);
        }
    }
}

/// What the parts of a word are: they make up the word again, and none is too large
/// for its place.
pub proof fn law_parts_of_words(port: Port, pair: Pair, numb: Numb)
    ensures
        8 * port.val() + port.tag() == port.0,
        port.tag() < 8,
        0x1_0000_0000 * pair.snd().0 + pair.fst().0 == pair.0,
        32 * numb.u24() + numb.typ() == numb.0,
        numb.typ() < 32,
        numb.sym() < 256,
        (numb.u24() - numb.sym()) % 256 == 0,
        -0x80_0000 <= numb.i24() < 0x80_0000,
        (numb.u24() - numb.i24()) % 0x100_0000 == 0,
        numb.f24_bits() % 256 == 0,
        (numb.u24() - numb.f24_bits() / 256) % 0x100_0000 == 0,
{
}

/// A word of the device's memory stays as it is for the host, but for the root and
/// for variables outside the heap, which become variable zero.
pub proof fn law_words_of_the_host(p: u32, heap: u32)
    ensures
        remapped(0xFFFF_FFF8, heap) == 0,
        p % 8 == 0 && p / 8 >= heap ==> remapped(p, heap) == 0,
        p != 0xFFFF_FFF8 && (p % 8 != 0 || p / 8 < heap) ==> remapped(p, heap) == p,
{
}

/// A machine without a core is given as many worker threads as one with a single
/// core: just one.
pub proof fn law_single_core(cap: int)
    requires
        cap >= 0,
    ensures
        capped_log2(0, cap) == 0,
        capped_log2(1, cap) == 0,
        pow2(0) == 1,
{
    lemma_log0(2, 0);
    lemma_log0(2, 1);
    lemma2_to64();
}

/// Which sizes the memory of a program can have: a slot and a lane at least, and room
/// for a redex at least and for as many as 32 bits can count; and the words of each
/// part have to be countable.
pub proof fn law_valid_sizes(sizes: Sizes)
    ensures
        ({
            let redexes = sizes.nthreads * sizes.rspan + sizes.overflow;
            let countable = 2 * sizes.heap <= usize::MAX && 8 * sizes.nthreads <= usize::MAX && 2
                * redexes <= usize::MAX;
            sizes.valid() <==> countable && sizes.heap > 0 && sizes.nthreads > 0 && 0 < redexes
                <= 0xFFFF_FFFF
        }),
{
    assert(sizes.nthreads * sizes.rspan >= 0) by (nonlinear_arith)
        requires
            sizes.nthreads >= 0,
            sizes.rspan >= 0,
    ;
}

} // verus!
