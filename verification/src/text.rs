//! A byte-addressable model of the host text buffer, with the line and
//! whitespace lookups that indentation needs.

use vstd::prelude::*;

verus! {

/// The newline byte.
pub const NL: u8 = 10;

/// Whether a byte is whitespace (ASCII space, tab, line feed, vertical
/// tab, form feed or carriage return).
pub open spec fn spec_is_ws(b: u8) -> bool {
    b == 32 || (9 <= b && b <= 13)
}

pub fn is_ws(b: u8) -> (r: bool)
    ensures
        r == spec_is_ws(b),
{
    b == 32 || (9 <= b && b <= 13)
}

/// The number of newline bytes among the first `i` bytes of `s`.
pub open spec fn count_nl(s: Seq<u8>, i: int) -> int
    decreases i,
{
    if i <= 0 {
        0
    } else {
        count_nl(s, i - 1) + if s[i - 1] == NL {
            1int
        } else {
            0int
        }
    }
}

/// How many lines the buffer has: one more than its newline count.
pub open spec fn spec_line_count(s: Seq<u8>) -> int {
    count_nl(s, s.len() as int) + 1
}

/// The host text buffer, addressed by bytes.
pub struct TextBuf {
    pub bytes: Vec<u8>,
}

impl TextBuf {
    pub open spec fn view(self) -> Seq<u8> {
        self.bytes@
    }

    pub fn new(bytes: Vec<u8>) -> (r: TextBuf)
        ensures
            r@ == bytes@,
    {
        TextBuf { bytes }
    }

    pub fn len(&self) -> (r: usize)
        ensures
            r == self@.len(),
    {
        self.bytes.len()
    }

    /// The number of lines of the buffer.
    pub fn line_count(&self) -> (r: usize)
        requires
            self@.len() < usize::MAX,
        ensures
            r == spec_line_count(self@),
    {
        let mut i: usize = 0;
        let mut n: usize = 0;
        while i < self.bytes.len()
            invariant
                i <= self@.len() < usize::MAX,
                n == count_nl(self@, i as int),
                n <= i,
            decreases self@.len() - i,
        {
            if self.bytes[i] == NL {
                n = n + 1;
            }
            i = i + 1;
        }
        n + 1
    }

    /// The byte range `[start, end)` of line `l`: `start` is the first
    /// byte of the line, `end` is one past its newline (or the buffer's
    /// length for the last line).
    pub fn line_range(&self, l: usize) -> (r: (usize, usize))
        requires
            l < spec_line_count(self@),
        ensures
            r.0 <= r.1 <= self@.len(),
            r.0 < r.1 || r.1 == self@.len(),
            count_nl(self@, r.0 as int) == l,
            r.0 == 0 || self@[r.0 - 1] == NL,
            r.1 == self@.len() || self@[r.1 - 1] == NL,
            forall|j: int| r.0 <= j < r.1 && #[trigger] self@[j] == NL ==> j == r.1 - 1,
    {
        let len = self.bytes.len();
        let mut i: usize = 0;
        let mut n: usize = 0;
        // find the start of line l
        while n < l
            invariant
                l < spec_line_count(self@),
                len == self@.len(),
                i <= len,
                n == count_nl(self@, i as int),
                n <= l,
                i == 0 || (n == l ==> self@[i - 1] == NL),
                n < l || i == 0 || self@[i - 1] == NL,
            decreases self@.len() - i,
        {
            proof {
                // the line exists, so its start lies before the buffer's end
                if i >= self@.len() {
                    assert(n == count_nl(self@, self@.len() as int));
                    assert(false);
                }
            }
            if self.bytes[i] == NL {
                n = n + 1;
            }
            i = i + 1;
        }
        let start = i;
        // find the end of line l
        while i < self.bytes.len() && self.bytes[i] != NL
            invariant
                start <= i <= self@.len(),
                forall|j: int| start <= j < i ==> #[trigger] self@[j] != NL,
            decreases self@.len() - i,
        {
            i = i + 1;
        }
        if i < self.bytes.len() {
            (start, i + 1)
        } else {
            (start, i)
        }
    }

    /// The position of the first non-whitespace byte in `[start, end)`.
    pub fn first_non_ws(&self, start: usize, end: usize) -> (r: Option<usize>)
        requires
            start <= end <= self@.len(),
        ensures
            match r {
                Some(i) => start <= i < end && !spec_is_ws(self@[i as int]) && forall|j: int|
                    start <= j < i ==> spec_is_ws(#[trigger] self@[j]),
                None => forall|j: int| start <= j < end ==> spec_is_ws(#[trigger] self@[j]),
            },
    {
        let mut i = start;
        while i < end
            invariant
                start <= i <= end <= self@.len(),
                forall|j: int| start <= j < i ==> spec_is_ws(#[trigger] self@[j]),
            decreases end - i,
        {
            if !is_ws(self.bytes[i]) {
                return Some(i);
            }
            i = i + 1;
        }
        None
    }

    /// The position of the last non-whitespace byte in `[start, end)`.
    pub fn last_non_ws(&self, start: usize, end: usize) -> (r: Option<usize>)
        requires
            start <= end <= self@.len(),
        ensures
            match r {
                Some(i) => start <= i < end && !spec_is_ws(self@[i as int]) && forall|j: int|
                    i < j < end ==> spec_is_ws(#[trigger] self@[j]),
                None => forall|j: int| start <= j < end ==> spec_is_ws(#[trigger] self@[j]),
            },
    {
        let mut i = end;
        while i > start
            invariant
                start <= i <= end <= self@.len(),
                forall|j: int| i <= j < end ==> spec_is_ws(#[trigger] self@[j]),
            decreases i,
        {
            i = i - 1;
            if !is_ws(self.bytes[i]) {
                return Some(i);
            }
        }
        None
    }

    /// The column of byte position `i`: how many bytes lie between it
    /// and the last newline before it.
    pub fn col_of(&self, i: usize) -> (r: usize)
        requires
            i <= self@.len(),
        ensures
            r <= i,
            forall|j: int| i - r <= j < i ==> #[trigger] self@[j] != NL,
            r == i || self@[i - r - 1] == NL,
    {
        let mut j = i;
        while j > 0 && self.bytes[j - 1] != NL
            invariant
                j <= i <= self@.len(),
                forall|k: int| j <= k < i ==> #[trigger] self@[k] != NL,
            decreases j,
        {
            j = j - 1;
        }
        i - j
    }
}

/// Whether everything from position `i` to the end of its line is
/// whitespace (the line ends at the next newline or at the buffer's
/// end).
pub open spec fn spec_rest_blank(s: Seq<u8>, i: int) -> bool
    decreases s.len() - i,
{
    if i < 0 || i >= s.len() {
        true
    } else if s[i] == NL {
        true
    } else {
        spec_is_ws(s[i]) && spec_rest_blank(s, i + 1)
    }
}

impl TextBuf {
    /// Whether only whitespace follows position `i` on its line.
    pub fn rest_blank(&self, i: usize) -> (r: bool)
        ensures
            r == spec_rest_blank(self@, i as int),
    {
        let len = self.bytes.len();
        let mut j = i;
        while j < len
            invariant
                len == self@.len(),
                i <= j,
                spec_rest_blank(self@, i as int) == spec_rest_blank(self@, j as int),
            decreases len - j,
        {
            let b = self.bytes[j];
            if b == NL {
                return true;
            }
            if !is_ws(b) {
                return false;
            }
            j = j + 1;
        }
        true
    }
}

/// Whether byte position `j` lies on line `l` (a line's terminating
/// newline belongs to it).
pub open spec fn spec_on_line(s: Seq<u8>, j: int, l: int) -> bool {
    0 <= j < s.len() && count_nl(s, j) == l
}

/// Whether line `l` holds only whitespace.
pub open spec fn spec_line_blank_at(s: Seq<u8>, l: int) -> bool {
    forall|j: int| spec_on_line(s, j, l) ==> spec_is_ws(#[trigger] s[j])
}

/// The first non-whitespace byte of line `l`.
pub open spec fn spec_first_content(s: Seq<u8>, l: int, b: int) -> bool {
    &&& spec_on_line(s, b, l)
    &&& !spec_is_ws(s[b])
    &&& forall|j: int| spec_on_line(s, j, l) && j < b ==> spec_is_ws(#[trigger] s[j])
}

/// The last non-whitespace byte of line `l`.
pub open spec fn spec_last_content(s: Seq<u8>, l: int, b: int) -> bool {
    &&& spec_on_line(s, b, l)
    &&& !spec_is_ws(s[b])
    &&& forall|j: int| spec_on_line(s, j, l) && j > b ==> spec_is_ws(#[trigger] s[j])
}

proof fn lemma_count_nl_monotonic(s: Seq<u8>, i: int, j: int)
    requires
        i <= j,
    ensures
        count_nl(s, i) <= count_nl(s, j),
    decreases j - i,
{
    if i < j {
        lemma_count_nl_monotonic(s, i, j - 1);
    }
}

proof fn lemma_count_nl_flat(s: Seq<u8>, a: int, j: int)
    requires
        0 <= a <= j,
        forall|k: int| a <= k < j ==> #[trigger] s[k] != NL,
    ensures
        count_nl(s, j) == count_nl(s, a),
    decreases j - a,
{
    if a < j {
        lemma_count_nl_flat(s, a, j - 1);
    }
}

/// The bytes of line `l` are exactly the range its byte bounds give.
pub proof fn lemma_line_bytes(s: Seq<u8>, l: int, start: int, end: int)
    requires
        0 <= start <= end <= s.len(),
        start < end || end == s.len(),
        count_nl(s, start) == l,
        start == 0 || s[start - 1] == NL,
        end == s.len() || s[end - 1] == NL,
        forall|j: int| start <= j < end && #[trigger] s[j] == NL ==> j == end - 1,
    ensures
        forall|j: int| #[trigger] spec_on_line(s, j, l) <==> start <= j < end,
{
    assert forall|j: int| #[trigger] spec_on_line(s, j, l) <==> start <= j < end by {
        if start <= j < end {
            lemma_count_nl_flat(s, start, j);
        } else if 0 <= j < s.len() {
            if j < start {
                assert(start > 0);
                assert(count_nl(s, start) == count_nl(s, start - 1) + 1);
                lemma_count_nl_monotonic(s, j, start - 1);
            } else {
                assert(end < s.len() || j < end);
                assert(s[end - 1] == NL);
                lemma_count_nl_flat(s, start, end - 1);
                assert(count_nl(s, end) == l + 1);
                lemma_count_nl_monotonic(s, end, j);
            }
        }
    }
}

/// A line has at most one first content byte.
pub proof fn lemma_first_content_unique(s: Seq<u8>, l: int, b1: int, b2: int)
    requires
        spec_first_content(s, l, b1),
        spec_first_content(s, l, b2),
    ensures
        b1 == b2,
{
}

/// A line has at most one last content byte.
pub proof fn lemma_last_content_unique(s: Seq<u8>, l: int, b1: int, b2: int)
    requires
        spec_last_content(s, l, b1),
        spec_last_content(s, l, b2),
    ensures
        b1 == b2,
{
}

/// The column at the end of inserted or removed text that ends at line
/// `to_line`: when the text stays on the starting line, the start column
/// advances by the text's length; otherwise the column is what follows
/// the text's last newline.
pub fn col_after(to_line: usize, from_line: usize, from_col: usize, s: &Vec<u8>) -> (r: usize)
    requires
        to_line == from_line ==> from_col + s@.len() <= usize::MAX,
    ensures
        to_line == from_line ==> r == from_col + s@.len(),
        to_line != from_line ==> {
            &&& r <= s@.len()
            &&& forall|j: int| s@.len() - r <= j < s@.len() ==> #[trigger] s@[j] != NL
            &&& (r == s@.len() || s@[s@.len() - r - 1] == NL)
        },
{
    if to_line == from_line {
        from_col + s.len()
    } else {
        let mut j = s.len();
        while j > 0 && s[j - 1] != NL
            invariant
                j <= s@.len(),
                forall|k: int| j <= k < s@.len() ==> #[trigger] s@[k] != NL,
            decreases j,
        {
            j = j - 1;
        }
        s.len() - j
    }
}

} // verus!
