//! Models of compiled-query results: capture records, pattern
//! properties, and the per-suffix capture index that indentation uses.

use vstd::prelude::*;

use crate::bytes::bytes_eq;
use crate::bytes::clone_bytes;
use crate::bytes::parse_usize;
use crate::capnames::align_name;
use crate::capnames::auto_name;
use crate::capnames::avoid_last_matching_next_name;
use crate::capnames::begin_name;
use crate::capnames::branch_name;
use crate::capnames::close_delimiter_name;
use crate::capnames::dedent_name;
use crate::capnames::end_name;
use crate::capnames::ignore_name;
use crate::capnames::immediate_name;
use crate::capnames::increment_name;
use crate::capnames::open_delimiter_name;
use crate::capnames::spec_align_name;
use crate::capnames::spec_auto_name;
use crate::capnames::spec_avoid_last_matching_next_name;
use crate::capnames::spec_begin_name;
use crate::capnames::spec_branch_name;
use crate::capnames::spec_close_delimiter_name;
use crate::capnames::spec_dedent_name;
use crate::capnames::spec_end_name;
use crate::capnames::spec_ignore_name;
use crate::capnames::spec_immediate_name;
use crate::capnames::spec_increment_name;
use crate::capnames::spec_open_delimiter_name;
use crate::capnames::spec_start_at_same_line_name;
use crate::capnames::spec_zero_name;
use crate::capnames::start_at_same_line_name;
use crate::capnames::zero_name;

verus! {

/// One key/value property attached to a query pattern.
#[derive(Clone, Debug)]
pub struct QueryProp {
    pub key: Vec<u8>,
    pub value: Option<Vec<u8>>,
}

/// One capture produced by running a query: which pattern matched,
/// which capture name it carries (an index into the query's capture
/// names), and the captured node as an arena index.
#[derive(Clone, Copy, PartialEq, Eq, Structural, Debug)]
pub struct CaptureRec {
    pub pattern: usize,
    pub capture: usize,
    pub node: usize,
}

/// Whether a property list holds `key`.
pub open spec fn spec_props_have(props: Seq<QueryProp>, key: Seq<u8>) -> bool {
    exists|i: int| 0 <= i < props.len() && (#[trigger] props[i]).key@ == key
}

pub fn props_have(props: &Vec<QueryProp>, key: &Vec<u8>) -> (r: bool)
    ensures
        r == spec_props_have(props@, key@),
{
    let mut i: usize = 0;
    while i < props.len()
        invariant
            i <= props@.len(),
            forall|j: int| 0 <= j < i ==> (#[trigger] props@[j]).key@ != key@,
        decreases props@.len() - i,
    {
        if bytes_eq(&props[i].key, key) {
            return true;
        }
        i = i + 1;
    }
    false
}

/// The value of the first property with the given key, when it has one.
pub open spec fn spec_props_value(props: Seq<QueryProp>, key: Seq<u8>) -> Option<Seq<u8>>
    decreases props.len(),
{
    if props.len() == 0 {
        None
    } else if props[0].key@ == key {
        match props[0].value {
            Some(v) => Some(v@),
            None => None,
        }
    } else {
        spec_props_value(props.skip(1), key)
    }
}

pub fn props_value(props: &Vec<QueryProp>, key: &Vec<u8>) -> (r: Option<Vec<u8>>)
    ensures
        match r {
            Some(v) => spec_props_value(props@, key@) == Some(v@),
            None => spec_props_value(props@, key@) is None,
        },
{
    proof {
        assert(props@.skip(0) =~= props@);
    }
    let mut i: usize = 0;
    while i < props.len()
        invariant
            i <= props@.len(),
            spec_props_value(props@, key@) == spec_props_value(props@.skip(i as int), key@),
        decreases props@.len() - i,
    {
        proof {
            assert(props@.skip(i as int)[0] == props@[i as int]);
            assert(props@.skip(i as int).skip(1) =~= props@.skip(i + 1));
        }
        if bytes_eq(&props[i].key, key) {
            return match &props[i].value {
                Some(v) => Some(clone_bytes(v)),
                None => None,
            };
        }
        i = i + 1;
    }
    None
}

/// The property flags a `begin` capture carries.
#[derive(Clone, Copy, PartialEq, Eq, Structural, Debug)]
pub struct BeginProps {
    pub immediate: bool,
    pub start_at_same_line: bool,
}

/// The properties an `align` capture carries: optional delimiter kinds,
/// the required column increment, and the extra-indent flag for a close
/// delimiter that ends on the target line. The rule requires a numeric
/// increment; a query that omits or malforms it is degraded to 0 when
/// the index is built, rather than rejected, as malformed queries
/// elsewhere degrade to absent features.
#[derive(Clone, Debug)]
pub struct AlignProps {
    pub open_delim: Option<Vec<u8>>,
    pub close_delim: Option<Vec<u8>>,
    pub increment: usize,
    pub avoid_last_matching_next: bool,
}

/// Whether two optional byte strings hold the same bytes.
pub open spec fn spec_opt_bytes_eq(a: Option<Vec<u8>>, b: Option<Vec<u8>>) -> bool {
    match (a, b) {
        (Some(x), Some(y)) => x@ == y@,
        (None, None) => true,
        _ => false,
    }
}

impl AlignProps {
    /// Whether two align-property records carry the same content.
    pub open spec fn same_as(self, other: AlignProps) -> bool {
        &&& spec_opt_bytes_eq(self.open_delim, other.open_delim)
        &&& spec_opt_bytes_eq(self.close_delim, other.close_delim)
        &&& self.increment == other.increment
        &&& self.avoid_last_matching_next == other.avoid_last_matching_next
    }
}

/// The capture index for one indentation pass: per recognized capture
/// suffix, the nodes that carry it, keyed by arena index. The first
/// capture of a node wins.
pub struct IndentCaps {
    pub begin: Vec<(usize, BeginProps)>,
    pub dedent: Vec<usize>,
    pub branch: Vec<usize>,
    pub end_mark: Vec<usize>,
    pub zero: Vec<usize>,
    pub ignore: Vec<usize>,
    pub auto: Vec<usize>,
    pub align: Vec<(usize, AlignProps)>,
}

/// Whether some capture record binds `node` under the capture name
/// `name`.
pub open spec fn spec_has_cap(
    captures: Seq<CaptureRec>,
    names: Seq<Vec<u8>>,
    node: usize,
    name: Seq<u8>,
) -> bool {
    exists|i: int|
        0 <= i < captures.len() && (#[trigger] captures[i]).node == node && captures[i].capture
            < names.len() && names[captures[i].capture as int]@ == name
}

/// First-match lookup in the `begin` list.
pub open spec fn spec_begin_of(s: Seq<(usize, BeginProps)>, n: usize) -> Option<BeginProps>
    decreases s.len(),
{
    if s.len() == 0 {
        None
    } else if s[0].0 == n {
        Some(s[0].1)
    } else {
        spec_begin_of(s.skip(1), n)
    }
}

/// First-match lookup in the `align` list.
pub open spec fn spec_align_of(s: Seq<(usize, AlignProps)>, n: usize) -> Option<AlignProps>
    decreases s.len(),
{
    if s.len() == 0 {
        None
    } else if s[0].0 == n {
        Some(s[0].1)
    } else {
        spec_align_of(s.skip(1), n)
    }
}

/// Appends a node to a membership list: afterwards exactly the old
/// members and the new node are members.
fn add_node(v: &mut Vec<usize>, n: usize)
    ensures
        forall|m: usize| #[trigger] final(v)@.contains(m) == (old(v)@.contains(m) || m == n),
{
    v.push(n);
    proof {
        assert forall|m: usize| #[trigger] v@.contains(m) == (old(v)@.contains(m) || m == n) by {
            if old(v)@.contains(m) {
                let k = choose|k: int| 0 <= k < old(v)@.len() && old(v)@[k] == m;
                assert(v@[k] == m);
            }
            if m == n {
                assert(v@[v@.len() - 1] == m);
            }
            if v@.contains(m) {
                let k = choose|k: int| 0 <= k < v@.len() && v@[k] == m;
                if k < old(v)@.len() {
                    assert(old(v)@[k] == m);
                }
            }
        }
    }
}

pub fn list_contains(v: &Vec<usize>, n: usize) -> (r: bool)
    ensures
        r == v@.contains(n),
{
    let mut i: usize = 0;
    while i < v.len()
        invariant
            i <= v@.len(),
            forall|j: int| 0 <= j < i ==> v@[j] != n,
        decreases v@.len() - i,
    {
        if v[i] == n {
            return true;
        }
        i = i + 1;
    }
    false
}

pub fn begin_of(v: &Vec<(usize, BeginProps)>, n: usize) -> (r: Option<BeginProps>)
    ensures
        r == spec_begin_of(v@, n),
{
    proof {
        assert(v@.skip(0) =~= v@);
    }
    let mut i: usize = 0;
    while i < v.len()
        invariant
            i <= v@.len(),
            spec_begin_of(v@, n) == spec_begin_of(v@.skip(i as int), n),
        decreases v@.len() - i,
    {
        proof {
            assert(v@.skip(i as int)[0] == v@[i as int]);
            assert(v@.skip(i as int).skip(1) =~= v@.skip(i + 1));
        }
        if v[i].0 == n {
            return Some(v[i].1);
        }
        i = i + 1;
    }
    None
}

pub fn align_of(v: &Vec<(usize, AlignProps)>, n: usize) -> (r: Option<AlignProps>)
    ensures
        match r {
            Some(a) => spec_align_of(v@, n) matches Some(b) && a.same_as(b),
            None => spec_align_of(v@, n) is None,
        },
{
    proof {
        assert(v@.skip(0) =~= v@);
    }
    let mut i: usize = 0;
    while i < v.len()
        invariant
            i <= v@.len(),
            spec_align_of(v@, n) == spec_align_of(v@.skip(i as int), n),
        decreases v@.len() - i,
    {
        proof {
            assert(v@.skip(i as int)[0] == v@[i as int]);
            assert(v@.skip(i as int).skip(1) =~= v@.skip(i + 1));
        }
        if v[i].0 == n {
            let a = &v[i].1;
            return Some(
                AlignProps {
                    open_delim: match &a.open_delim {
                        Some(d) => Some(clone_bytes(d)),
                        None => None,
                    },
                    close_delim: match &a.close_delim {
                        Some(d) => Some(clone_bytes(d)),
                        None => None,
                    },
                    increment: a.increment,
                    avoid_last_matching_next: a.avoid_last_matching_next,
                },
            );
        }
        i = i + 1;
    }
    None
}

/// Whether a capture index holds exactly the indent captures of the
/// records: membership of each list matches them, suffix by suffix.
pub open spec fn caps_built_from(
    r: IndentCaps,
    captures: Seq<CaptureRec>,
    names: Seq<Vec<u8>>,
) -> bool {
    &&& forall|n: usize|
        #[trigger] r.dedent@.contains(n) == spec_has_cap(captures, names, n, spec_dedent_name())
    &&& forall|n: usize|
        #[trigger] r.branch@.contains(n) == spec_has_cap(captures, names, n, spec_branch_name())
    &&& forall|n: usize|
        #[trigger] r.end_mark@.contains(n) == spec_has_cap(captures, names, n, spec_end_name())
    &&& forall|n: usize|
        #[trigger] r.zero@.contains(n) == spec_has_cap(captures, names, n, spec_zero_name())
    &&& forall|n: usize|
        #[trigger] r.ignore@.contains(n) == spec_has_cap(captures, names, n, spec_ignore_name())
    &&& forall|n: usize|
        #[trigger] r.auto@.contains(n) == spec_has_cap(captures, names, n, spec_auto_name())
    &&& forall|n: usize|
        (#[trigger] spec_begin_of(r.begin@, n) is Some) == spec_has_cap(
            captures,
            names,
            n,
            spec_begin_name(),
        )
    &&& forall|n: usize|
        (#[trigger] spec_align_of(r.align@, n) is Some) == spec_has_cap(
            captures,
            names,
            n,
            spec_align_name(),
        )
}

impl IndentCaps {
    /// Builds the capture index from the indent query's capture records.
    /// Membership of each list matches the capture records exactly; the
    /// first capture of a node under a given suffix wins.
    pub fn build(
        captures: &Vec<CaptureRec>,
        names: &Vec<Vec<u8>>,
        pattern_props: &Vec<Vec<QueryProp>>,
    ) -> (r: IndentCaps)
        ensures
            caps_built_from(r, captures@, names@),
            forall|n: usize|
                #[trigger] r.dedent@.contains(n) == spec_has_cap(
                    captures@,
                    names@,
                    n,
                    spec_dedent_name(),
                ),
            forall|n: usize|
                #[trigger] r.branch@.contains(n) == spec_has_cap(
                    captures@,
                    names@,
                    n,
                    spec_branch_name(),
                ),
            forall|n: usize|
                #[trigger] r.end_mark@.contains(n) == spec_has_cap(
                    captures@,
                    names@,
                    n,
                    spec_end_name(),
                ),
            forall|n: usize|
                #[trigger] r.zero@.contains(n) == spec_has_cap(
                    captures@,
                    names@,
                    n,
                    spec_zero_name(),
                ),
            forall|n: usize|
                #[trigger] r.ignore@.contains(n) == spec_has_cap(
                    captures@,
                    names@,
                    n,
                    spec_ignore_name(),
                ),
            forall|n: usize|
                #[trigger] r.auto@.contains(n) == spec_has_cap(
                    captures@,
                    names@,
                    n,
                    spec_auto_name(),
                ),
            forall|n: usize|
                (#[trigger] spec_begin_of(r.begin@, n) is Some) == spec_has_cap(
                    captures@,
                    names@,
                    n,
                    spec_begin_name(),
                ),
            forall|n: usize|
                (#[trigger] spec_align_of(r.align@, n) is Some) == spec_has_cap(
                    captures@,
                    names@,
                    n,
                    spec_align_name(),
                ),
    {
        let nm_begin = begin_name();
        let nm_dedent = dedent_name();
        let nm_branch = branch_name();
        let nm_end = end_name();
        let nm_zero = zero_name();
        let nm_ignore = ignore_name();
        let nm_auto = auto_name();
        let nm_align = align_name();
        let key_immediate = immediate_name();
        let key_sasl = start_at_same_line_name();
        let key_open = open_delimiter_name();
        let key_close = close_delimiter_name();
        let key_increment = increment_name();
        let key_avoid = avoid_last_matching_next_name();

        let empty_props: Vec<QueryProp> = Vec::new();

        let mut caps = IndentCaps {
            begin: Vec::new(),
            dedent: Vec::new(),
            branch: Vec::new(),
            end_mark: Vec::new(),
            zero: Vec::new(),
            ignore: Vec::new(),
            auto: Vec::new(),
            align: Vec::new(),
        };
        let mut i: usize = 0;
        while i < captures.len()
            invariant
                i <= captures@.len(),
                nm_begin@ == spec_begin_name(),
                nm_dedent@ == spec_dedent_name(),
                nm_branch@ == spec_branch_name(),
                nm_end@ == spec_end_name(),
                nm_zero@ == spec_zero_name(),
                nm_ignore@ == spec_ignore_name(),
                nm_auto@ == spec_auto_name(),
                nm_align@ == spec_align_name(),
                key_immediate@ == spec_immediate_name(),
                key_sasl@ == spec_start_at_same_line_name(),
                key_open@ == spec_open_delimiter_name(),
                key_close@ == spec_close_delimiter_name(),
                key_increment@ == spec_increment_name(),
                key_avoid@ == spec_avoid_last_matching_next_name(),
                forall|n: usize|
                    #[trigger] caps.dedent@.contains(n) == spec_has_cap(
                        captures@.take(i as int),
                        names@,
                        n,
                        spec_dedent_name(),
                    ),
                forall|n: usize|
                    #[trigger] caps.branch@.contains(n) == spec_has_cap(
                        captures@.take(i as int),
                        names@,
                        n,
                        spec_branch_name(),
                    ),
                forall|n: usize|
                    #[trigger] caps.end_mark@.contains(n) == spec_has_cap(
                        captures@.take(i as int),
                        names@,
                        n,
                        spec_end_name(),
                    ),
                forall|n: usize|
                    #[trigger] caps.zero@.contains(n) == spec_has_cap(
                        captures@.take(i as int),
                        names@,
                        n,
                        spec_zero_name(),
                    ),
                forall|n: usize|
                    #[trigger] caps.ignore@.contains(n) == spec_has_cap(
                        captures@.take(i as int),
                        names@,
                        n,
                        spec_ignore_name(),
                    ),
                forall|n: usize|
                    #[trigger] caps.auto@.contains(n) == spec_has_cap(
                        captures@.take(i as int),
                        names@,
                        n,
                        spec_auto_name(),
                    ),
                forall|n: usize|
                    (#[trigger] spec_begin_of(caps.begin@, n) is Some) == spec_has_cap(
                        captures@.take(i as int),
                        names@,
                        n,
                        spec_begin_name(),
                    ),
                forall|n: usize|
                    (#[trigger] spec_align_of(caps.align@, n) is Some) == spec_has_cap(
                        captures@.take(i as int),
                        names@,
                        n,
                        spec_align_name(),
                    ),
            decreases captures@.len() - i,
        {
            let ghost begin0 = caps.begin@;
            let ghost dedent0 = caps.dedent@;
            let ghost branch0 = caps.branch@;
            let ghost end0 = caps.end_mark@;
            let ghost zero0 = caps.zero@;
            let ghost ignore0 = caps.ignore@;
            let ghost auto0 = caps.auto@;
            let ghost align0 = caps.align@;
            let c = captures[i];
            proof {
                crate::capnames::lemma_indent_names_distinct();
                lemma_has_cap_push(captures@, names@, i as int);
            }
            if c.capture < names.len() {
                let nm = &names[c.capture];
                let props = if c.pattern < pattern_props.len() {
                    &pattern_props[c.pattern]
                } else {
                    &empty_props
                };
                if bytes_eq(nm, &nm_begin) {
                    if begin_of(&caps.begin, c.node).is_none() {
                        let bp = BeginProps {
                            immediate: props_have(props, &key_immediate),
                            start_at_same_line: props_have(props, &key_sasl),
                        };
                        proof {
                            lemma_begin_push(caps.begin@, c.node, bp);
                        }
                        caps.begin.push((c.node, bp));
                    }
                } else if bytes_eq(nm, &nm_dedent) {
                    if !list_contains(&caps.dedent, c.node) {
                        add_node(&mut caps.dedent, c.node);
                    }
                } else if bytes_eq(nm, &nm_branch) {
                    if !list_contains(&caps.branch, c.node) {
                        add_node(&mut caps.branch, c.node);
                    }
                } else if bytes_eq(nm, &nm_end) {
                    if !list_contains(&caps.end_mark, c.node) {
                        add_node(&mut caps.end_mark, c.node);
                    }
                } else if bytes_eq(nm, &nm_zero) {
                    if !list_contains(&caps.zero, c.node) {
                        add_node(&mut caps.zero, c.node);
                    }
                } else if bytes_eq(nm, &nm_ignore) {
                    if !list_contains(&caps.ignore, c.node) {
                        add_node(&mut caps.ignore, c.node);
                    }
                } else if bytes_eq(nm, &nm_auto) {
                    if !list_contains(&caps.auto, c.node) {
                        add_node(&mut caps.auto, c.node);
                    }
                } else if bytes_eq(nm, &nm_align) {
                    if align_of(&caps.align, c.node).is_none() {
                        let increment = match props_value(props, &key_increment) {
                            Some(v) => match parse_usize(&v) {
                                Some(x) => x,
                                None => 0,
                            },
                            None => 0,
                        };
                        let ap = AlignProps {
                            open_delim: props_value(props, &key_open),
                            close_delim: props_value(props, &key_close),
                            increment,
                            avoid_last_matching_next: props_have(props, &key_avoid),
                        };
                        proof {
                            lemma_align_push(caps.align@, c.node, ap);
                        }
                        caps.align.push((c.node, ap));
                    }
                }
            }
            proof {
                assert forall|n: usize| #[trigger] caps.dedent@.contains(n) == spec_has_cap(
                    captures@.take(i as int + 1),
                    names@,
                    n,
                    spec_dedent_name(),
                ) by {
                    assert(dedent0.contains(n) == spec_has_cap(
                        captures@.take(i as int),
                        names@,
                        n,
                        spec_dedent_name(),
                    ));
                }
                assert forall|n: usize| #[trigger] caps.branch@.contains(n) == spec_has_cap(
                    captures@.take(i as int + 1),
                    names@,
                    n,
                    spec_branch_name(),
                ) by {
                    assert(branch0.contains(n) == spec_has_cap(
                        captures@.take(i as int),
                        names@,
                        n,
                        spec_branch_name(),
                    ));
                }
                assert forall|n: usize| #[trigger] caps.end_mark@.contains(n) == spec_has_cap(
                    captures@.take(i as int + 1),
                    names@,
                    n,
                    spec_end_name(),
                ) by {
                    assert(end0.contains(n) == spec_has_cap(
                        captures@.take(i as int),
                        names@,
                        n,
                        spec_end_name(),
                    ));
                }
                assert forall|n: usize| #[trigger] caps.zero@.contains(n) == spec_has_cap(
                    captures@.take(i as int + 1),
                    names@,
                    n,
                    spec_zero_name(),
                ) by {
                    assert(zero0.contains(n) == spec_has_cap(
                        captures@.take(i as int),
                        names@,
                        n,
                        spec_zero_name(),
                    ));
                }
                assert forall|n: usize| #[trigger] caps.ignore@.contains(n) == spec_has_cap(
                    captures@.take(i as int + 1),
                    names@,
                    n,
                    spec_ignore_name(),
                ) by {
                    assert(ignore0.contains(n) == spec_has_cap(
                        captures@.take(i as int),
                        names@,
                        n,
                        spec_ignore_name(),
                    ));
                }
                assert forall|n: usize| #[trigger] caps.auto@.contains(n) == spec_has_cap(
                    captures@.take(i as int + 1),
                    names@,
                    n,
                    spec_auto_name(),
                ) by {
                    assert(auto0.contains(n) == spec_has_cap(
                        captures@.take(i as int),
                        names@,
                        n,
                        spec_auto_name(),
                    ));
                }
                assert forall|n: usize| (#[trigger] spec_begin_of(caps.begin@, n) is Some)
                    == spec_has_cap(captures@.take(i as int + 1), names@, n, spec_begin_name()) by {
                    assert((spec_begin_of(begin0, n) is Some) == spec_has_cap(
                        captures@.take(i as int),
                        names@,
                        n,
                        spec_begin_name(),
                    ));
                }
                assert forall|n: usize| (#[trigger] spec_align_of(caps.align@, n) is Some)
                    == spec_has_cap(captures@.take(i as int + 1), names@, n, spec_align_name()) by {
                    assert((spec_align_of(align0, n) is Some) == spec_has_cap(
                        captures@.take(i as int),
                        names@,
                        n,
                        spec_align_name(),
                    ));
                }
            }
            i = i + 1;
        }
        proof {
            assert(captures@.take(captures@.len() as int) =~= captures@);
        }
        caps
    }
}

/// Extending the scanned prefix by one record adds exactly that record's
/// bindings.
proof fn lemma_has_cap_push(captures: Seq<CaptureRec>, names: Seq<Vec<u8>>, i: int)
    requires
        0 <= i < captures.len(),
    ensures
        forall|n: usize, name: Seq<u8>|
            #[trigger] spec_has_cap(captures.take(i + 1), names, n, name) <==> (spec_has_cap(
                captures.take(i),
                names,
                n,
                name,
            ) || (captures[i].node == n && captures[i].capture < names.len()
                && names[captures[i].capture as int]@ == name)),
{
    assert forall|n: usize, name: Seq<u8>|
        #[trigger] spec_has_cap(captures.take(i + 1), names, n, name) implies (spec_has_cap(
        captures.take(i),
        names,
        n,
        name,
    ) || (captures[i].node == n && captures[i].capture < names.len()
        && names[captures[i].capture as int]@ == name)) by {
        let j = choose|j: int|
            0 <= j < captures.take(i + 1).len() && (#[trigger] captures.take(i + 1)[j]).node == n
                && captures.take(i + 1)[j].capture < names.len() && names[captures.take(i + 1)[j].capture as int]@
                == name;
        if j < i {
            assert(captures.take(i)[j] == captures.take(i + 1)[j]);
        }
    }
    assert forall|n: usize, name: Seq<u8>|
        (spec_has_cap(captures.take(i), names, n, name) || (captures[i].node == n
            && captures[i].capture < names.len() && names[captures[i].capture as int]@
            == name)) implies #[trigger] spec_has_cap(captures.take(i + 1), names, n, name) by {
        if spec_has_cap(captures.take(i), names, n, name) {
            let j = choose|j: int|
                0 <= j < captures.take(i).len() && (#[trigger] captures.take(i)[j]).node == n
                    && captures.take(i)[j].capture < names.len() && names[captures.take(
                    i,
                )[j].capture as int]@ == name;
            assert(captures.take(i + 1)[j] == captures.take(i)[j]);
        } else {
            assert(captures.take(i + 1)[i] == captures[i]);
        }
    }
}

/// Appending a begin entry makes lookups of its key succeed and leaves
/// every other key's lookup unchanged.
proof fn lemma_begin_push(s: Seq<(usize, BeginProps)>, n: usize, bp: BeginProps)
    ensures
        spec_begin_of(s.push((n, bp)), n) is Some,
        forall|m: usize|
            m != n ==> #[trigger] spec_begin_of(s.push((n, bp)), m) == spec_begin_of(s, m),
    decreases s.len(),
{
    let t = s.push((n, bp));
    if s.len() == 0 {
        assert(t[0] == (n, bp));
        assert forall|m: usize| m != n implies #[trigger] spec_begin_of(t, m) == spec_begin_of(
            s,
            m,
        ) by {
            assert(t.skip(1) =~= Seq::<(usize, BeginProps)>::empty());
            assert(spec_begin_of(t.skip(1), m) is None);
            assert(spec_begin_of(s, m) is None);
        }
    } else {
        lemma_begin_push(s.skip(1), n, bp);
        assert(t[0] == s[0]);
        assert(t.skip(1) =~= s.skip(1).push((n, bp)));
        if s[0].0 != n {
            assert(spec_begin_of(t, n) == spec_begin_of(s.skip(1).push((n, bp)), n));
        }
        assert forall|m: usize| m != n implies #[trigger] spec_begin_of(t, m) == spec_begin_of(
            s,
            m,
        ) by {
            if s[0].0 != m {
                assert(spec_begin_of(t, m) == spec_begin_of(s.skip(1).push((n, bp)), m));
                assert(spec_begin_of(s.skip(1).push((n, bp)), m) == spec_begin_of(s.skip(1), m));
            }
        }
    }
}

/// Appending an align entry makes lookups of its key succeed and leaves
/// every other key's lookup unchanged.
proof fn lemma_align_push(s: Seq<(usize, AlignProps)>, n: usize, ap: AlignProps)
    ensures
        spec_align_of(s.push((n, ap)), n) is Some,
        forall|m: usize|
            m != n ==> #[trigger] spec_align_of(s.push((n, ap)), m) == spec_align_of(s, m),
    decreases s.len(),
{
    let t = s.push((n, ap));
    if s.len() == 0 {
        assert(t[0] == (n, ap));
        assert forall|m: usize| m != n implies #[trigger] spec_align_of(t, m) == spec_align_of(
            s,
            m,
        ) by {
            assert(t.skip(1) =~= Seq::<(usize, AlignProps)>::empty());
            assert(spec_align_of(t.skip(1), m) is None);
            assert(spec_align_of(s, m) is None);
        }
    } else {
        lemma_align_push(s.skip(1), n, ap);
        assert(t[0] == s[0]);
        assert(t.skip(1) =~= s.skip(1).push((n, ap)));
        if s[0].0 != n {
            assert(spec_align_of(t, n) == spec_align_of(s.skip(1).push((n, ap)), n));
        }
        assert forall|m: usize| m != n implies #[trigger] spec_align_of(t, m) == spec_align_of(
            s,
            m,
        ) by {
            if s[0].0 != m {
                assert(spec_align_of(t, m) == spec_align_of(s.skip(1).push((n, ap)), m));
                assert(spec_align_of(s.skip(1).push((n, ap)), m) == spec_align_of(s.skip(1), m));
            }
        }
    }
}

} // verus!
