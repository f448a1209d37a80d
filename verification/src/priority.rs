//! Highlight priorities: a capture's priority is the position of the
//! first semantic prefix of a fixed ordered list that its name starts
//! with; names matching no prefix get the maximum value and sort last.

use vstd::prelude::*;

use crate::bytes::spec_starts_with;
use crate::bytes::starts_with;

verus! {

/// The number of semantic prefixes in the priority order.
pub const PREFIX_COUNT: usize = 19;

/// The fixed priority order of semantic capture-name prefixes.
pub open spec fn spec_prefix(i: int) -> Seq<u8> {
    if i == 0 {
        seq![109u8, 97u8, 114u8, 107u8, 117u8, 112u8]  // markup
    } else if i == 1 {
        seq![99u8, 111u8, 109u8, 109u8, 101u8, 110u8, 116u8]  // comment
    } else if i == 2 {
        seq![115u8, 116u8, 114u8, 105u8, 110u8, 103u8]  // string
    } else if i == 3 {
        seq![100u8, 105u8, 102u8, 102u8]  // diff
    } else if i == 4 {
        seq![118u8, 97u8, 114u8, 105u8, 97u8, 98u8, 108u8, 101u8]  // variable
    } else if i == 5 {
        seq![109u8, 111u8, 100u8, 117u8, 108u8, 101u8]  // module
    } else if i == 6 {
        seq![108u8, 97u8, 98u8, 101u8, 108u8]  // label
    } else if i == 7 {
        seq![99u8, 104u8, 97u8, 114u8, 97u8, 99u8, 116u8, 101u8, 114u8]  // character
    } else if i == 8 {
        seq![98u8, 111u8, 111u8, 108u8, 101u8, 97u8, 110u8]  // boolean
    } else if i == 9 {
        seq![110u8, 117u8, 109u8, 98u8, 101u8, 114u8]  // number
    } else if i == 10 {
        seq![116u8, 121u8, 112u8, 101u8]  // type
    } else if i == 11 {
        seq![97u8, 116u8, 116u8, 114u8, 105u8, 98u8, 117u8, 116u8, 101u8]  // attribute
    } else if i == 12 {
        seq![112u8, 114u8, 111u8, 112u8, 101u8, 114u8, 116u8, 121u8]  // property
    } else if i == 13 {
        seq![102u8, 117u8, 110u8, 99u8, 116u8, 105u8, 111u8, 110u8]  // function
    } else if i == 14 {
        seq![99u8, 111u8, 110u8, 115u8, 116u8, 97u8, 110u8, 116u8]  // constant
    } else if i == 15 {
        seq![99u8, 111u8, 110u8, 115u8, 116u8, 114u8, 117u8, 99u8, 116u8, 111u8, 114u8]  // constructor
    } else if i == 16 {
        seq![111u8, 112u8, 101u8, 114u8, 97u8, 116u8, 111u8, 114u8]  // operator
    } else if i == 17 {
        seq![107u8, 101u8, 121u8, 119u8, 111u8, 114u8, 100u8]  // keyword
    } else if i == 18 {
        seq![112u8, 117u8, 110u8, 99u8, 116u8, 117u8, 97u8, 116u8, 105u8, 111u8, 110u8]  // punctuation
    } else {
        seq![]
    }
}

/// The priority of a capture name: the count of prefixes that do not
/// match before the first one that does.
pub open spec fn spec_priority(name: Seq<u8>) -> int {
    spec_priority_from(name, 0)
}

pub open spec fn spec_priority_from(name: Seq<u8>, i: int) -> int
    decreases 19 - i,
{
    if i < 0 || i >= 19 {
        19
    } else if spec_starts_with(name, spec_prefix(i)) {
        i
    } else {
        spec_priority_from(name, i + 1)
    }
}

/// The prefix table as runnable values, matching `spec_prefix`.
pub fn prefix_table() -> (r: Vec<Vec<u8>>)
    ensures
        r@.len() == 19,
        forall|i: int| 0 <= i < 19 ==> (#[trigger] r@[i])@ == spec_prefix(i),
{
    let mut t: Vec<Vec<u8>> = Vec::new();
    let p0: [u8; 6] = [109, 97, 114, 107, 117, 112];
    t.push(vstd::slice::slice_to_vec(p0.as_slice()));
    let p1: [u8; 7] = [99, 111, 109, 109, 101, 110, 116];
    t.push(vstd::slice::slice_to_vec(p1.as_slice()));
    let p2: [u8; 6] = [115, 116, 114, 105, 110, 103];
    t.push(vstd::slice::slice_to_vec(p2.as_slice()));
    let p3: [u8; 4] = [100, 105, 102, 102];
    t.push(vstd::slice::slice_to_vec(p3.as_slice()));
    let p4: [u8; 8] = [118, 97, 114, 105, 97, 98, 108, 101];
    t.push(vstd::slice::slice_to_vec(p4.as_slice()));
    let p5: [u8; 6] = [109, 111, 100, 117, 108, 101];
    t.push(vstd::slice::slice_to_vec(p5.as_slice()));
    let p6: [u8; 5] = [108, 97, 98, 101, 108];
    t.push(vstd::slice::slice_to_vec(p6.as_slice()));
    let p7: [u8; 9] = [99, 104, 97, 114, 97, 99, 116, 101, 114];
    t.push(vstd::slice::slice_to_vec(p7.as_slice()));
    let p8: [u8; 7] = [98, 111, 111, 108, 101, 97, 110];
    t.push(vstd::slice::slice_to_vec(p8.as_slice()));
    let p9: [u8; 6] = [110, 117, 109, 98, 101, 114];
    t.push(vstd::slice::slice_to_vec(p9.as_slice()));
    let p10: [u8; 4] = [116, 121, 112, 101];
    t.push(vstd::slice::slice_to_vec(p10.as_slice()));
    let p11: [u8; 9] = [97, 116, 116, 114, 105, 98, 117, 116, 101];
    t.push(vstd::slice::slice_to_vec(p11.as_slice()));
    let p12: [u8; 8] = [112, 114, 111, 112, 101, 114, 116, 121];
    t.push(vstd::slice::slice_to_vec(p12.as_slice()));
    let p13: [u8; 8] = [102, 117, 110, 99, 116, 105, 111, 110];
    t.push(vstd::slice::slice_to_vec(p13.as_slice()));
    let p14: [u8; 8] = [99, 111, 110, 115, 116, 97, 110, 116];
    t.push(vstd::slice::slice_to_vec(p14.as_slice()));
    let p15: [u8; 11] = [99, 111, 110, 115, 116, 114, 117, 99, 116, 111, 114];
    t.push(vstd::slice::slice_to_vec(p15.as_slice()));
    let p16: [u8; 8] = [111, 112, 101, 114, 97, 116, 111, 114];
    t.push(vstd::slice::slice_to_vec(p16.as_slice()));
    let p17: [u8; 7] = [107, 101, 121, 119, 111, 114, 100];
    t.push(vstd::slice::slice_to_vec(p17.as_slice()));
    let p18: [u8; 11] = [112, 117, 110, 99, 116, 117, 97, 116, 105, 111, 110];
    t.push(vstd::slice::slice_to_vec(p18.as_slice()));
    proof {
        assert(t@[0]@ =~= spec_prefix(0));
        assert(t@[1]@ =~= spec_prefix(1));
        assert(t@[2]@ =~= spec_prefix(2));
        assert(t@[3]@ =~= spec_prefix(3));
        assert(t@[4]@ =~= spec_prefix(4));
        assert(t@[5]@ =~= spec_prefix(5));
        assert(t@[6]@ =~= spec_prefix(6));
        assert(t@[7]@ =~= spec_prefix(7));
        assert(t@[8]@ =~= spec_prefix(8));
        assert(t@[9]@ =~= spec_prefix(9));
        assert(t@[10]@ =~= spec_prefix(10));
        assert(t@[11]@ =~= spec_prefix(11));
        assert(t@[12]@ =~= spec_prefix(12));
        assert(t@[13]@ =~= spec_prefix(13));
        assert(t@[14]@ =~= spec_prefix(14));
        assert(t@[15]@ =~= spec_prefix(15));
        assert(t@[16]@ =~= spec_prefix(16));
        assert(t@[17]@ =~= spec_prefix(17));
        assert(t@[18]@ =~= spec_prefix(18));
    }
    t
}

/// The priority of one capture name.
pub fn priority_of(name: &Vec<u8>) -> (r: u8)
    ensures
        r as int == spec_priority(name@),
{
    let table = prefix_table();
    let mut i: usize = 0;
    while i < 19
        invariant
            i <= 19,
            table@.len() == 19,
            forall|k: int| 0 <= k < 19 ==> (#[trigger] table@[k])@ == spec_prefix(k),
            spec_priority(name@) == spec_priority_from(name@, i as int),
        decreases 19 - i,
    {
        if starts_with(name, &table[i]) {
            return i as u8;
        }
        i = i + 1;
    }
    19u8
}

/// The priorities of a language's capture names, one per name, computed
/// once when the language's queries are compiled.
pub fn capture_priorities(names: &Vec<Vec<u8>>) -> (r: Vec<u8>)
    ensures
        r@.len() == names@.len(),
        forall|i: int| 0 <= i < names@.len() ==> (#[trigger] r@[i]) as int == spec_priority(names@[i]@),
{
    let mut out: Vec<u8> = Vec::new();
    let mut i: usize = 0;
    while i < names.len()
        invariant
            i <= names@.len(),
            out@.len() == i,
            forall|k: int| 0 <= k < i ==> (#[trigger] out@[k]) as int == spec_priority(names@[k]@),
        decreases names@.len() - i,
    {
        out.push(priority_of(&names[i]));
        i = i + 1;
    }
    out
}

} // verus!
