//! The value-level logic of a WebAssembly instance's linear memory: finding
//! room for an allocation, bump allocation, and reading NUL-terminated
//! UTF-8 strings.  The memory itself is read and written by the caller.
use vstd::prelude::*;
use vstd::string::StringExecFns;
use vstd::utf8::{decode_utf8, valid_utf8};
use crate::object::{ErrorValue, RuntimeError};

verus! {

/// The size of a WebAssembly memory page, in bytes.
pub const WASM_PAGE_SIZE: usize = 65536;

/// The byte size of a memory of `pages` pages, as computed in `usize`.
pub open spec fn memory_byte_size(pages: u64) -> int {
    (pages as usize) as int * WASM_PAGE_SIZE as int
}

/// Whether `size` bytes starting at `ptr` avoid every byte that lies both
/// below `max_size` and within the memory's data (`data_len` bytes).
pub open spec fn offset_is_free(ptr: int, size: int, max_size: int, data_len: int) -> bool {
    forall|i: int| 0 <= i < size ==> !(ptr + i < max_size && #[trigger] (ptr + i) < data_len)
}

/// Whether the search for a free offset overflows `usize`: the byte size of
/// the memory does not fit, or the candidate offset at the end of the data
/// cannot be extended by `size` bytes.
pub open spec fn allocation_overflows(pages: u64, data_len: int, size: int) -> bool {
    let max = memory_byte_size(pages);
    ||| max > usize::MAX
    ||| (0 < size <= max && data_len < max && data_len + size - 1 > usize::MAX)
}

/// Whether the search for room for `size` bytes in a memory of `pages`
/// pages, holding `data_len` bytes of data, would overflow `usize`.
pub fn allocation_search_overflows(pages: u64, data_len: usize, size: usize) -> (r: bool)
    ensures
        r == allocation_overflows(pages, data_len as int, size as int),
{
    let page_count = pages as usize;
    match page_count.checked_mul(WASM_PAGE_SIZE) {
        None => true,
        Some(max) => size > 0 && size <= max && data_len < max && data_len.checked_add(size - 1).is_none(),
    }
}

/// Finds the first offset below the memory's byte size (`pages` pages) at
/// which `size` bytes avoid the memory's data.
pub fn find_free_offset(pages: u64, data: &[u8], size: usize) -> (r: Result<usize, RuntimeError>)
    requires
        !allocation_overflows(pages, data@.len() as int, size as int),
    ensures
        memory_byte_size(pages) < size ==> (r matches Err(e) && e@
            == ErrorValue::InvalidOperation("Not enough memory to allocate"@)),
        memory_byte_size(pages) >= size ==> match r {
            Ok(p) => {
                &&& p < memory_byte_size(pages)
                &&& offset_is_free(p as int, size as int, memory_byte_size(pages), data@.len() as int)
                &&& forall|q: int|
                    0 <= q < p ==> !offset_is_free(
                        q,
                        size as int,
                        memory_byte_size(pages),
                        data@.len() as int,
                    )
            },
            Err(e) => {
                &&& e@ == ErrorValue::InvalidOperation("Failed to find free memory location"@)
                &&& forall|q: int|
                    0 <= q < memory_byte_size(pages) ==> !offset_is_free(
                        q,
                        size as int,
                        memory_byte_size(pages),
                        data@.len() as int,
                    )
            },
        },
{
    let page_count = pages as usize;
    let max_size = page_count * WASM_PAGE_SIZE;
    if max_size < size {
        return Err(RuntimeError::InvalidOperation(String::from_str("Not enough memory to allocate")));
    }
    let ghost dlen = data@.len() as int;
    let mut ptr: usize = 0;
    while ptr < max_size
        invariant
            max_size == memory_byte_size(pages),
            size <= max_size,
            dlen == data@.len(),
            !allocation_overflows(pages, dlen, size as int),
            ptr <= max_size,
            forall|q: int| 0 <= q < ptr ==> !offset_is_free(q, size as int, max_size as int, dlen),
        decreases max_size - ptr,
    {
        proof {
            // An offset past the data would already have been free.
            if size > 0 && ptr > dlen {
                assert(!offset_is_free(dlen, size as int, max_size as int, dlen));
                let i = choose|i: int|
                    0 <= i < size && (dlen + i < max_size && #[trigger] (dlen + i) < dlen);
                assert(false);
            }
        }
        let mut can_use = true;
        let mut i: usize = 0;
        while i < size && can_use
            invariant
                max_size == memory_byte_size(pages),
                size <= max_size,
                dlen == data@.len(),
                !allocation_overflows(pages, dlen, size as int),
                ptr < max_size,
                size > 0 ==> ptr <= dlen,
                i <= size,
                can_use ==> forall|j: int|
                    0 <= j < i ==> !(ptr + j < max_size && #[trigger] (ptr + j) < dlen),
                !can_use ==> 0 < i && (ptr + (i - 1) < max_size && ptr + (i - 1) < dlen),
                !can_use ==> i == 1,
            decreases size - i,
        {
            proof {
                if i > 0 {
                    assert(!(ptr + 0 < max_size && #[trigger] (ptr + 0) < dlen));
                    assert(ptr == dlen);
                    assert(ptr + i <= dlen + size - 1);
                }
            }
            if ptr + i < max_size && ptr + i < data.len() {
                can_use = false;
            }
            i = i + 1;
        }
        if can_use {
            return Ok(ptr);
        }
        ptr = ptr + 1;
    }
    Err(RuntimeError::InvalidOperation(String::from_str("Failed to find free memory location")))
}

/// Where a search for a free offset ends: for a non-empty allocation that
/// fits, right at the end of the memory's data when that is inside the
/// memory; for an empty one, at offset 0 of a non-empty memory.
pub proof fn law_free_offset_is_end_of_data(pages: u64, data_len: int, size: int, p: int)
    requires
        0 <= data_len,
        0 <= size <= memory_byte_size(pages),
        0 <= p < memory_byte_size(pages),
        offset_is_free(p, size, memory_byte_size(pages), data_len),
        forall|q: int|
            0 <= q < p ==> !offset_is_free(q, size, memory_byte_size(pages), data_len),
    ensures
        size == 0 ==> p == 0,
        size > 0 ==> p == data_len,
{
    let max = memory_byte_size(pages);
    if size == 0 {
        if p > 0 {
            assert(offset_is_free(0, size, max, data_len));
        }
    } else {
        if p < data_len {
            assert(!(p + 0 < max && (p + 0) < data_len));
        }
        if p > data_len {
            assert(offset_is_free(data_len, size, max, data_len)) by {
                assert forall|i: int| 0 <= i < size implies !(data_len + i < max && #[trigger] (
                data_len + i) < data_len) by {}
            }
        }
    }
}

/// Advances the bump pointer `next` by `size` bytes and returns the offset it
/// had, as a 32-bit WebAssembly pointer.
pub fn bump_allocate(next: &mut usize, size: usize) -> (ptr: i32)
    requires
        *old(next) + size <= usize::MAX,
    ensures
        ptr == *old(next) as i32,
        *final(next) == *old(next) + size,
{
    let ptr = *next;
    *next = *next + size;
    ptr as i32
}

/// The index of the first NUL byte of `data`, or its length when there is none.
pub open spec fn first_nul_index(data: Seq<u8>) -> int
    decreases data.len(),
{
    if data.len() == 0 {
        0
    } else if data[0] == 0 {
        0
    } else {
        1 + first_nul_index(data.subrange(1, data.len() as int))
    }
}

/// The bytes of `data` before its first NUL byte (all of them when there is none).
pub open spec fn before_nul(data: Seq<u8>) -> Seq<u8> {
    data.subrange(0, first_nul_index(data))
}

/// The first NUL index is `k` when `data[k]` (or the end) follows `k` non-NUL bytes.
proof fn lemma_first_nul_index(data: Seq<u8>, k: int)
    requires
        0 <= k <= data.len(),
        k == data.len() || data[k] == 0,
        forall|j: int| 0 <= j < k ==> #[trigger] data[j] != 0,
    ensures
        first_nul_index(data) == k,
    decreases k,
{
    if k > 0 {
        let t = data.subrange(1, data.len() as int);
        assert forall|j: int| 0 <= j < k - 1 implies #[trigger] t[j] != 0 by {
            assert(t[j] == data[j + 1]);
        }
        if k < data.len() {
            assert(t[k - 1] == data[k]);
        }
        lemma_first_nul_index(t, k - 1);
    }
}

/// `std`'s `String::from_utf8`: the bytes as a string when they are valid
/// UTF-8, else the description of the first encoding error.  Claimed: the
/// result is a string exactly when the bytes are valid UTF-8, and then it
/// holds the characters they encode.  The error text is left unsaid.
#[verifier::external_body]
pub(crate) fn utf8_string(bytes: Vec<u8>) -> (r: Result<String, String>)
    ensures
        r is Ok <==> valid_utf8(bytes@),
        r matches Ok(s) ==> s@ == decode_utf8(bytes@),
{
    match String::from_utf8(bytes) {
        Ok(s) => Ok(s),
        Err(e) => Err(format!("{}", e)),
    }
}

/// The string held by `data` up to its first NUL byte, or the description of
/// why those bytes are not valid UTF-8.
fn nul_terminated_utf8(data: Vec<u8>) -> (r: Result<String, String>)
    ensures
        r is Ok <==> valid_utf8(before_nul(data@)),
        r matches Ok(s) ==> s@ == decode_utf8(before_nul(data@)),
{
    let mut data = data;
    let mut i: usize = 0;
    while i < data.len() && data[i] != 0
        invariant
            i <= data@.len(),
            forall|j: int| 0 <= j < i ==> #[trigger] data@[j] != 0,
        decreases data@.len() - i,
    {
        i = i + 1;
    }
    proof {
        lemma_first_nul_index(data@, i as int);
    }
    let ghost whole = data@;
    data.truncate(i);
    assert(data@ == before_nul(whole));
    utf8_string(data)
}

/// Reads a string out of bytes copied from wasm memory: the bytes up to the
/// first NUL byte, decoded as UTF-8.
pub fn decode_wasm_string(data: Vec<u8>) -> (r: Result<String, RuntimeError>)
    ensures
        valid_utf8(before_nul(data@)) ==> (r matches Ok(s) && s@ == decode_utf8(
            before_nul(data@),
        )),
        !valid_utf8(before_nul(data@)) ==> (r matches Err(RuntimeError::InvalidOperation(msg))
            && exists|detail: Seq<char>| msg@ == "Invalid UTF-8 in wasm string: "@ + detail),
{
    match nul_terminated_utf8(data) {
        Ok(s) => Ok(s),
        Err(detail) => {
            let msg = String::from_str("Invalid UTF-8 in wasm string: ").concat(detail.as_str());
            Err(RuntimeError::InvalidOperation(msg))
        },
    }
}

/// Reads a string written by the bump allocator's owner: the bytes up to the
/// first NUL byte, decoded as UTF-8.
pub fn decode_managed_string(data: Vec<u8>) -> (r: Result<String, RuntimeError>)
    ensures
        valid_utf8(before_nul(data@)) ==> (r matches Ok(s) && s@ == decode_utf8(
            before_nul(data@),
        )),
        !valid_utf8(before_nul(data@)) ==> (r matches Err(RuntimeError::InvalidOperation(msg))
            && exists|detail: Seq<char>| msg@ == "Invalid UTF-8 from wasm: "@ + detail),
{
    match nul_terminated_utf8(data) {
        Ok(s) => Ok(s),
        Err(detail) => {
            let msg = String::from_str("Invalid UTF-8 from wasm: ").concat(detail.as_str());
            Err(RuntimeError::InvalidOperation(msg))
        },
    }
}

} // verus!
