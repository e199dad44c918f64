//! Content digests: the fingerprint by which two files are held to be the
//! same, and the test that tells text from binary.

use vstd::prelude::*;
use vstd::slice::slice_subrange;
use vstd::utf8::{
    is_char_boundary, is_char_boundary_iff_not_is_continuation_byte, length_of_first_scalar,
    pop_first_scalar, valid_utf8, valid_utf8_concat, valid_utf8_split,
};

verus! {

/// The streaming state of an MD5 computation.
#[verifier::external_type_specification]
#[verifier::external_body]
pub struct ExContext(md5::Context);

/// The bytes that a hashing state has consumed since it was created, in order.
pub uninterp spec fn consumed(state: md5::Context) -> Seq<u8>;

/// The MD5 digest of a byte stream.
pub uninterp spec fn md5_digest(data: Seq<u8>) -> Seq<u8>;

/// `md5::Context::new`: a fresh state has consumed nothing.
#[verifier::external_body]
fn context_new() -> (state: md5::Context)
    ensures
        consumed(state) == Seq::<u8>::empty(),
{
    md5::Context::new()
}

/// `md5::Context::consume`: the bytes are taken in after those consumed before.
#[verifier::external_body]
fn context_consume(state: &mut md5::Context, data: &[u8])
    ensures
        consumed(*final(state)) == consumed(*old(state)) + data@,
{
    state.consume(data)
}

/// `md5::Context::compute`: the digest of everything consumed, sixteen bytes long.
#[verifier::external_body]
fn context_compute(state: md5::Context) -> (digest: Vec<u8>)
    ensures
        digest@ == md5_digest(consumed(state)),
        digest@.len() == 16,
{
    state.compute().0.to_vec()
}

/// `std::str::from_utf8`: it succeeds exactly on well-formed UTF-8.
#[verifier::external_body]
fn decodes_as_utf8(bytes: &[u8]) -> (ok: bool)
    ensures
        ok == valid_utf8(bytes@),
{
    std::str::from_utf8(bytes).is_ok()
}

/// How many bytes are handed to the hashing state at a time.
pub const BLOCK_LEN: usize = 1024;

/// The digest of a file's content, fed to the hashing state block by block.
pub fn compute_file_hash(content: &[u8]) -> (digest: Vec<u8>)
    ensures
        digest@ == md5_digest(content@),
        digest@.len() == 16,
{
    let mut state = context_new();
    let mut done: usize = 0;
    while done < content.len()
        invariant
            done <= content.len(),
            consumed(state) == content@.take(done as int),
        decreases content.len() - done,
    {
        let rest: usize = content.len() - done;
        let n: usize = if rest < BLOCK_LEN {
            rest
        } else {
            BLOCK_LEN
        };
        let block = slice_subrange(content, done, done + n);
        context_consume(&mut state, block);
        assert(content@.take(done as int) + content@.subrange(done as int, done + n)
            == content@.take(done + n));
        done += n;
    }
    assert(content@.take(content.len() as int) == content@);
    context_compute(state)
}

/// The byte that ends a line.
pub const LINE_FEED: u8 = 10;

/// What follows a well-formed prefix of well-formed bytes is well-formed.
pub proof fn lemma_valid_after_valid_prefix(head: Seq<u8>, tail: Seq<u8>)
    requires
        valid_utf8(head),
        valid_utf8(head + tail),
    ensures
        valid_utf8(tail),
    decreases head.len(),
{
    if head.len() == 0 {
        assert(head + tail =~= tail);
    } else {
        let whole = head + tail;
        assert(whole[0] == head[0]);
        assert(head.len() >= 2 ==> whole[1] == head[1]);
        assert(head.len() >= 3 ==> whole[2] == head[2]);
        assert(head.len() >= 4 ==> whole[3] == head[3]);
        assert(length_of_first_scalar(whole) == length_of_first_scalar(head));
        assert(pop_first_scalar(whole) =~= pop_first_scalar(head) + tail);
        lemma_valid_after_valid_prefix(pop_first_scalar(head), tail);
    }
}

/// Well-formed bytes are well-formed up to and including any of their line
/// feeds: a line feed is a character of its own.
pub proof fn lemma_valid_up_to_line_feed(bytes: Seq<u8>, k: int)
    requires
        valid_utf8(bytes),
        0 <= k < bytes.len(),
        bytes[k] == LINE_FEED,
    ensures
        valid_utf8(bytes.take(k + 1)),
{
    is_char_boundary_iff_not_is_continuation_byte(bytes, k);
    valid_utf8_split(bytes, k);
    let tail = bytes.subrange(k, bytes.len() as int);
    assert(tail[0] == LINE_FEED);
    assert(length_of_first_scalar(tail) == 1);
    assert(is_char_boundary(tail, 1)) by {
        reveal_with_fuel(is_char_boundary, 2);
    }
    valid_utf8_split(tail, 1);
    valid_utf8_concat(bytes.subrange(0, k), tail.subrange(0, 1));
    assert(bytes.subrange(0, k) + tail.subrange(0, 1) =~= bytes.take(k + 1));
}

/// Whether a file's content is text, that is, well-formed UTF-8 from the
/// first byte to the last. The content is decoded line by line, so no more
/// than a line need be looked at at a time.
pub fn is_file_utf8(content: &[u8]) -> (text: bool)
    ensures
        text == valid_utf8(content@),
{
    let mut start: usize = 0;
    let mut i: usize = 0;
    proof {
        assert(content@.take(0) =~= Seq::<u8>::empty());
    }
    while i < content.len()
        invariant
            start <= i <= content.len(),
            valid_utf8(content@.take(start as int)),
        decreases content.len() - i,
    {
        if content[i] == LINE_FEED {
            let line = slice_subrange(content, start, i + 1);
            let ghost before = content@.take(start as int);
            let ghost after = content@.skip(start as int);
            if !decodes_as_utf8(line) {
                proof {
                    if valid_utf8(content@) {
                        assert(before + after =~= content@);
                        lemma_valid_after_valid_prefix(before, after);
                        lemma_valid_up_to_line_feed(after, i - start);
                        assert(after.take(i - start + 1) =~= line@);
                    }
                }
                return false;
            }
            proof {
                valid_utf8_concat(before, line@);
                assert(before + line@ =~= content@.take(i + 1));
            }
            start = i + 1;
        }
        i += 1;
    }
    let rest = slice_subrange(content, start, content.len());
    let text = decodes_as_utf8(rest);
    proof {
        let before = content@.take(start as int);
        assert(before + rest@ =~= content@);
        if text {
            valid_utf8_concat(before, rest@);
        } else if valid_utf8(content@) {
            lemma_valid_after_valid_prefix(before, rest@);
        }
    }
    text
}

/// Whether two digests are the same bytes.
pub fn same_bytes(a: &Vec<u8>, b: &Vec<u8>) -> (same: bool)
    ensures
        same == (a@ == b@),
{
    if a.len() != b.len() {
        return false;
    }
    let mut i: usize = 0;
    while i < a.len()
        invariant
            i <= a.len(),
            a.len() == b.len(),
            a@.take(i as int) == b@.take(i as int),
        decreases a.len() - i,
    {
        if a[i] != b[i] {
            return false;
        }
        assert(a@.take(i + 1) == a@.take(i as int).push(a@[i as int]));
        assert(b@.take(i + 1) == b@.take(i as int).push(b@[i as int]));
        i += 1;
    }
    assert(a@ == a@.take(a.len() as int));
    assert(b@ == b@.take(b.len() as int));
    true
}

} // verus!
