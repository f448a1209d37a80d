//! Byte-string constants for the capture names and query property
//! keys that the engine recognizes.

use vstd::prelude::*;

verus! {

/// The bytes of `"indent.begin"`.
pub open spec fn spec_begin_name() -> Seq<u8> {
    seq![105u8, 110u8, 100u8, 101u8, 110u8, 116u8, 46u8, 98u8, 101u8, 103u8, 105u8, 110u8]
}

pub fn begin_name() -> (r: Vec<u8>)
    ensures
        r@ == spec_begin_name(),
{
    let a: [u8; 12] = [105, 110, 100, 101, 110, 116, 46, 98, 101, 103, 105, 110];
    let v = vstd::slice::slice_to_vec(a.as_slice());
    proof {
        assert(v@ =~= spec_begin_name());
    }
    v
}

/// The bytes of `"indent.dedent"`.
pub open spec fn spec_dedent_name() -> Seq<u8> {
    seq![105u8, 110u8, 100u8, 101u8, 110u8, 116u8, 46u8, 100u8, 101u8, 100u8, 101u8, 110u8, 116u8]
}

pub fn dedent_name() -> (r: Vec<u8>)
    ensures
        r@ == spec_dedent_name(),
{
    let a: [u8; 13] = [105, 110, 100, 101, 110, 116, 46, 100, 101, 100, 101, 110, 116];
    let v = vstd::slice::slice_to_vec(a.as_slice());
    proof {
        assert(v@ =~= spec_dedent_name());
    }
    v
}

/// The bytes of `"indent.branch"`.
pub open spec fn spec_branch_name() -> Seq<u8> {
    seq![105u8, 110u8, 100u8, 101u8, 110u8, 116u8, 46u8, 98u8, 114u8, 97u8, 110u8, 99u8, 104u8]
}

pub fn branch_name() -> (r: Vec<u8>)
    ensures
        r@ == spec_branch_name(),
{
    let a: [u8; 13] = [105, 110, 100, 101, 110, 116, 46, 98, 114, 97, 110, 99, 104];
    let v = vstd::slice::slice_to_vec(a.as_slice());
    proof {
        assert(v@ =~= spec_branch_name());
    }
    v
}

/// The bytes of `"indent.end"`.
pub open spec fn spec_end_name() -> Seq<u8> {
    seq![105u8, 110u8, 100u8, 101u8, 110u8, 116u8, 46u8, 101u8, 110u8, 100u8]
}

pub fn end_name() -> (r: Vec<u8>)
    ensures
        r@ == spec_end_name(),
{
    let a: [u8; 10] = [105, 110, 100, 101, 110, 116, 46, 101, 110, 100];
    let v = vstd::slice::slice_to_vec(a.as_slice());
    proof {
        assert(v@ =~= spec_end_name());
    }
    v
}

/// The bytes of `"indent.zero"`.
pub open spec fn spec_zero_name() -> Seq<u8> {
    seq![105u8, 110u8, 100u8, 101u8, 110u8, 116u8, 46u8, 122u8, 101u8, 114u8, 111u8]
}

pub fn zero_name() -> (r: Vec<u8>)
    ensures
        r@ == spec_zero_name(),
{
    let a: [u8; 11] = [105, 110, 100, 101, 110, 116, 46, 122, 101, 114, 111];
    let v = vstd::slice::slice_to_vec(a.as_slice());
    proof {
        assert(v@ =~= spec_zero_name());
    }
    v
}

/// The bytes of `"indent.ignore"`.
pub open spec fn spec_ignore_name() -> Seq<u8> {
    seq![105u8, 110u8, 100u8, 101u8, 110u8, 116u8, 46u8, 105u8, 103u8, 110u8, 111u8, 114u8, 101u8]
}

pub fn ignore_name() -> (r: Vec<u8>)
    ensures
        r@ == spec_ignore_name(),
{
    let a: [u8; 13] = [105, 110, 100, 101, 110, 116, 46, 105, 103, 110, 111, 114, 101];
    let v = vstd::slice::slice_to_vec(a.as_slice());
    proof {
        assert(v@ =~= spec_ignore_name());
    }
    v
}

/// The bytes of `"indent.auto"`.
pub open spec fn spec_auto_name() -> Seq<u8> {
    seq![105u8, 110u8, 100u8, 101u8, 110u8, 116u8, 46u8, 97u8, 117u8, 116u8, 111u8]
}

pub fn auto_name() -> (r: Vec<u8>)
    ensures
        r@ == spec_auto_name(),
{
    let a: [u8; 11] = [105, 110, 100, 101, 110, 116, 46, 97, 117, 116, 111];
    let v = vstd::slice::slice_to_vec(a.as_slice());
    proof {
        assert(v@ =~= spec_auto_name());
    }
    v
}

/// The bytes of `"indent.align"`.
pub open spec fn spec_align_name() -> Seq<u8> {
    seq![105u8, 110u8, 100u8, 101u8, 110u8, 116u8, 46u8, 97u8, 108u8, 105u8, 103u8, 110u8]
}

pub fn align_name() -> (r: Vec<u8>)
    ensures
        r@ == spec_align_name(),
{
    let a: [u8; 12] = [105, 110, 100, 101, 110, 116, 46, 97, 108, 105, 103, 110];
    let v = vstd::slice::slice_to_vec(a.as_slice());
    proof {
        assert(v@ =~= spec_align_name());
    }
    v
}

/// The bytes of `"indent.immediate"`.
pub open spec fn spec_immediate_name() -> Seq<u8> {
    seq![105u8, 110u8, 100u8, 101u8, 110u8, 116u8, 46u8, 105u8, 109u8, 109u8, 101u8, 100u8, 105u8, 97u8, 116u8, 101u8]
}

pub fn immediate_name() -> (r: Vec<u8>)
    ensures
        r@ == spec_immediate_name(),
{
    let a: [u8; 16] = [105, 110, 100, 101, 110, 116, 46, 105, 109, 109, 101, 100, 105, 97, 116, 101];
    let v = vstd::slice::slice_to_vec(a.as_slice());
    proof {
        assert(v@ =~= spec_immediate_name());
    }
    v
}

/// The bytes of `"indent.start_at_same_line"`.
pub open spec fn spec_start_at_same_line_name() -> Seq<u8> {
    seq![105u8, 110u8, 100u8, 101u8, 110u8, 116u8, 46u8, 115u8, 116u8, 97u8, 114u8, 116u8, 95u8, 97u8, 116u8, 95u8, 115u8, 97u8, 109u8, 101u8, 95u8, 108u8, 105u8, 110u8, 101u8]
}

pub fn start_at_same_line_name() -> (r: Vec<u8>)
    ensures
        r@ == spec_start_at_same_line_name(),
{
    let a: [u8; 25] = [105, 110, 100, 101, 110, 116, 46, 115, 116, 97, 114, 116, 95, 97, 116, 95, 115, 97, 109, 101, 95, 108, 105, 110, 101];
    let v = vstd::slice::slice_to_vec(a.as_slice());
    proof {
        assert(v@ =~= spec_start_at_same_line_name());
    }
    v
}

/// The bytes of `"indent.open_delimiter"`.
pub open spec fn spec_open_delimiter_name() -> Seq<u8> {
    seq![105u8, 110u8, 100u8, 101u8, 110u8, 116u8, 46u8, 111u8, 112u8, 101u8, 110u8, 95u8, 100u8, 101u8, 108u8, 105u8, 109u8, 105u8, 116u8, 101u8, 114u8]
}

pub fn open_delimiter_name() -> (r: Vec<u8>)
    ensures
        r@ == spec_open_delimiter_name(),
{
    let a: [u8; 21] = [105, 110, 100, 101, 110, 116, 46, 111, 112, 101, 110, 95, 100, 101, 108, 105, 109, 105, 116, 101, 114];
    let v = vstd::slice::slice_to_vec(a.as_slice());
    proof {
        assert(v@ =~= spec_open_delimiter_name());
    }
    v
}

/// The bytes of `"indent.close_delimiter"`.
pub open spec fn spec_close_delimiter_name() -> Seq<u8> {
    seq![105u8, 110u8, 100u8, 101u8, 110u8, 116u8, 46u8, 99u8, 108u8, 111u8, 115u8, 101u8, 95u8, 100u8, 101u8, 108u8, 105u8, 109u8, 105u8, 116u8, 101u8, 114u8]
}

pub fn close_delimiter_name() -> (r: Vec<u8>)
    ensures
        r@ == spec_close_delimiter_name(),
{
    let a: [u8; 22] = [105, 110, 100, 101, 110, 116, 46, 99, 108, 111, 115, 101, 95, 100, 101, 108, 105, 109, 105, 116, 101, 114];
    let v = vstd::slice::slice_to_vec(a.as_slice());
    proof {
        assert(v@ =~= spec_close_delimiter_name());
    }
    v
}

/// The bytes of `"indent.increment"`.
pub open spec fn spec_increment_name() -> Seq<u8> {
    seq![105u8, 110u8, 100u8, 101u8, 110u8, 116u8, 46u8, 105u8, 110u8, 99u8, 114u8, 101u8, 109u8, 101u8, 110u8, 116u8]
}

pub fn increment_name() -> (r: Vec<u8>)
    ensures
        r@ == spec_increment_name(),
{
    let a: [u8; 16] = [105, 110, 100, 101, 110, 116, 46, 105, 110, 99, 114, 101, 109, 101, 110, 116];
    let v = vstd::slice::slice_to_vec(a.as_slice());
    proof {
        assert(v@ =~= spec_increment_name());
    }
    v
}

/// The bytes of `"indent.avoid_last_matching_next"`.
pub open spec fn spec_avoid_last_matching_next_name() -> Seq<u8> {
    seq![105u8, 110u8, 100u8, 101u8, 110u8, 116u8, 46u8, 97u8, 118u8, 111u8, 105u8, 100u8, 95u8, 108u8, 97u8, 115u8, 116u8, 95u8, 109u8, 97u8, 116u8, 99u8, 104u8, 105u8, 110u8, 103u8, 95u8, 110u8, 101u8, 120u8, 116u8]
}

pub fn avoid_last_matching_next_name() -> (r: Vec<u8>)
    ensures
        r@ == spec_avoid_last_matching_next_name(),
{
    let a: [u8; 31] = [105, 110, 100, 101, 110, 116, 46, 97, 118, 111, 105, 100, 95, 108, 97, 115, 116, 95, 109, 97, 116, 99, 104, 105, 110, 103, 95, 110, 101, 120, 116];
    let v = vstd::slice::slice_to_vec(a.as_slice());
    proof {
        assert(v@ =~= spec_avoid_last_matching_next_name());
    }
    v
}

/// The bytes of `"injection.content"`.
pub open spec fn spec_injection_content_name() -> Seq<u8> {
    seq![105u8, 110u8, 106u8, 101u8, 99u8, 116u8, 105u8, 111u8, 110u8, 46u8, 99u8, 111u8, 110u8, 116u8, 101u8, 110u8, 116u8]
}

pub fn injection_content_name() -> (r: Vec<u8>)
    ensures
        r@ == spec_injection_content_name(),
{
    let a: [u8; 17] = [105, 110, 106, 101, 99, 116, 105, 111, 110, 46, 99, 111, 110, 116, 101, 110, 116];
    let v = vstd::slice::slice_to_vec(a.as_slice());
    proof {
        assert(v@ =~= spec_injection_content_name());
    }
    v
}

/// The bytes of `"injection.language"`.
pub open spec fn spec_injection_language_name() -> Seq<u8> {
    seq![105u8, 110u8, 106u8, 101u8, 99u8, 116u8, 105u8, 111u8, 110u8, 46u8, 108u8, 97u8, 110u8, 103u8, 117u8, 97u8, 103u8, 101u8]
}

pub fn injection_language_name() -> (r: Vec<u8>)
    ensures
        r@ == spec_injection_language_name(),
{
    let a: [u8; 18] = [105, 110, 106, 101, 99, 116, 105, 111, 110, 46, 108, 97, 110, 103, 117, 97, 103, 101];
    let v = vstd::slice::slice_to_vec(a.as_slice());
    proof {
        assert(v@ =~= spec_injection_language_name());
    }
    v
}

/// The bytes of `"injection.query"`.
pub open spec fn spec_injection_query_name() -> Seq<u8> {
    seq![105u8, 110u8, 106u8, 101u8, 99u8, 116u8, 105u8, 111u8, 110u8, 46u8, 113u8, 117u8, 101u8, 114u8, 121u8]
}

pub fn injection_query_name() -> (r: Vec<u8>)
    ensures
        r@ == spec_injection_query_name(),
{
    let a: [u8; 15] = [105, 110, 106, 101, 99, 116, 105, 111, 110, 46, 113, 117, 101, 114, 121];
    let v = vstd::slice::slice_to_vec(a.as_slice());
    proof {
        assert(v@ =~= spec_injection_query_name());
    }
    v
}

/// The bytes of `"comment"`.
pub open spec fn spec_comment_name() -> Seq<u8> {
    seq![99u8, 111u8, 109u8, 109u8, 101u8, 110u8, 116u8]
}

pub fn comment_name() -> (r: Vec<u8>)
    ensures
        r@ == spec_comment_name(),
{
    let a: [u8; 7] = [99, 111, 109, 109, 101, 110, 116];
    let v = vstd::slice::slice_to_vec(a.as_slice());
    proof {
        assert(v@ =~= spec_comment_name());
    }
    v
}


/// The recognized indent capture names are pairwise distinct.
pub proof fn lemma_indent_names_distinct()
    ensures
        spec_begin_name() != spec_dedent_name(),
        spec_begin_name() != spec_branch_name(),
        spec_begin_name() != spec_end_name(),
        spec_begin_name() != spec_zero_name(),
        spec_begin_name() != spec_ignore_name(),
        spec_begin_name() != spec_auto_name(),
        spec_begin_name() != spec_align_name(),
        spec_dedent_name() != spec_branch_name(),
        spec_dedent_name() != spec_end_name(),
        spec_dedent_name() != spec_zero_name(),
        spec_dedent_name() != spec_ignore_name(),
        spec_dedent_name() != spec_auto_name(),
        spec_dedent_name() != spec_align_name(),
        spec_branch_name() != spec_end_name(),
        spec_branch_name() != spec_zero_name(),
        spec_branch_name() != spec_ignore_name(),
        spec_branch_name() != spec_auto_name(),
        spec_branch_name() != spec_align_name(),
        spec_end_name() != spec_zero_name(),
        spec_end_name() != spec_ignore_name(),
        spec_end_name() != spec_auto_name(),
        spec_end_name() != spec_align_name(),
        spec_zero_name() != spec_ignore_name(),
        spec_zero_name() != spec_auto_name(),
        spec_zero_name() != spec_align_name(),
        spec_ignore_name() != spec_auto_name(),
        spec_ignore_name() != spec_align_name(),
        spec_auto_name() != spec_align_name(),
{
    assert(spec_begin_name().len() != spec_dedent_name().len());
    assert(spec_begin_name().len() != spec_branch_name().len());
    assert(spec_begin_name().len() != spec_end_name().len());
    assert(spec_begin_name().len() != spec_zero_name().len());
    assert(spec_begin_name().len() != spec_ignore_name().len());
    assert(spec_begin_name().len() != spec_auto_name().len());
    assert(spec_begin_name()[7] != spec_align_name()[7]);
    assert(spec_dedent_name()[7] != spec_branch_name()[7]);
    assert(spec_dedent_name().len() != spec_end_name().len());
    assert(spec_dedent_name().len() != spec_zero_name().len());
    assert(spec_dedent_name()[7] != spec_ignore_name()[7]);
    assert(spec_dedent_name().len() != spec_auto_name().len());
    assert(spec_dedent_name().len() != spec_align_name().len());
    assert(spec_branch_name().len() != spec_end_name().len());
    assert(spec_branch_name().len() != spec_zero_name().len());
    assert(spec_branch_name()[7] != spec_ignore_name()[7]);
    assert(spec_branch_name().len() != spec_auto_name().len());
    assert(spec_branch_name().len() != spec_align_name().len());
    assert(spec_end_name().len() != spec_zero_name().len());
    assert(spec_end_name().len() != spec_ignore_name().len());
    assert(spec_end_name().len() != spec_auto_name().len());
    assert(spec_end_name().len() != spec_align_name().len());
    assert(spec_zero_name().len() != spec_ignore_name().len());
    assert(spec_zero_name()[7] != spec_auto_name()[7]);
    assert(spec_zero_name().len() != spec_align_name().len());
    assert(spec_ignore_name().len() != spec_auto_name().len());
    assert(spec_ignore_name().len() != spec_align_name().len());
    assert(spec_auto_name().len() != spec_align_name().len());
}

} // verus!
