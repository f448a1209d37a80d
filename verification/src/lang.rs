//! Language registry entries: how a language name maps to the grammar
//! crate and the symbols that expose it, and the pure parts of query
//! loading (inheritance lines and merging).

use vstd::prelude::*;

use crate::bytes::clone_bytes;
use crate::bytes::spec_starts_with;
use crate::bytes::starts_with;
use crate::text::NL;

verus! {

/// How to obtain one language's grammar: the git source of its crate,
/// the symbols that yield the language (with whether each is a
/// function), and the crate's name.
pub struct LanguageOptions {
    pub git: Vec<u8>,
    pub symbols: Vec<(Vec<u8>, bool)>,
    pub crate_name: Vec<u8>,
    pub maintainers: Vec<Vec<u8>>,
}

/// A language's default grammar-crate name: the language name with
/// every underscore written as a dash.
pub open spec fn spec_crate_name(lang: Seq<u8>) -> Seq<u8> {
    Seq::new(
        lang.len(),
        |i: int|
            if lang[i] == 95 {
                45u8
            } else {
                lang[i]
            },
    )
}

pub fn crate_name(lang: &Vec<u8>) -> (r: Vec<u8>)
    ensures
        r@ == spec_crate_name(lang@),
{
    let mut out: Vec<u8> = Vec::new();
    let mut i: usize = 0;
    while i < lang.len()
        invariant
            i <= lang@.len(),
            out@ =~= spec_crate_name(lang@).take(i as int),
        decreases lang@.len() - i,
    {
        let b = lang[i];
        if b == 95 {
            out.push(45);
        } else {
            out.push(b);
        }
        proof {
            assert(out@ =~= spec_crate_name(lang@).take(i + 1));
        }
        i = i + 1;
    }
    proof {
        assert(spec_crate_name(lang@).take(lang@.len() as int) =~= spec_crate_name(lang@));
    }
    out
}

/// The name of the grammar's shared library file: `lib`, the crate
/// name with dashes written as underscores, and `.so`.
pub open spec fn spec_lib_file_name(crate_name: Seq<u8>) -> Seq<u8> {
    seq![108u8, 105u8, 98u8] + Seq::new(
        crate_name.len(),
        |i: int|
            if crate_name[i] == 45 {
                95u8
            } else {
                crate_name[i]
            },
    ) + seq![46u8, 115u8, 111u8]
}

pub fn lib_file_name(crate_name: &Vec<u8>) -> (r: Vec<u8>)
    ensures
        r@ == spec_lib_file_name(crate_name@),
{
    let mut out: Vec<u8> = Vec::new();
    out.push(108);
    out.push(105);
    out.push(98);
    let mut i: usize = 0;
    while i < crate_name.len()
        invariant
            i <= crate_name@.len(),
            out@ =~= spec_lib_file_name(crate_name@).take(3 + i as int),
        decreases crate_name@.len() - i,
    {
        let b = crate_name[i];
        if b == 45 {
            out.push(95);
        } else {
            out.push(b);
        }
        proof {
            assert(out@ =~= spec_lib_file_name(crate_name@).take(3 + i + 1));
        }
        i = i + 1;
    }
    out.push(46);
    out.push(115);
    out.push(111);
    proof {
        assert(out@ =~= spec_lib_file_name(crate_name@));
    }
    out
}

impl LanguageOptions {
    /// A registry pair for a language whose grammar crate exposes the
    /// one conventional constant symbol.
    pub fn pair(lang: &Vec<u8>, git: &Vec<u8>, maintainers: Vec<Vec<u8>>) -> (r: (
        Vec<u8>,
        LanguageOptions,
    ))
        ensures
            r.0@ == lang@,
            r.1.git@ == git@,
            r.1.crate_name@ == spec_crate_name(lang@),
            r.1.symbols@.len() == 1,
            r.1.symbols@[0].0@ == seq![76u8, 65u8, 78u8, 71u8, 85u8, 65u8, 71u8, 69u8],
            r.1.symbols@[0].1 == false,
    {
        let sym: [u8; 8] = [76, 65, 78, 71, 85, 65, 71, 69];
        let mut symbols: Vec<(Vec<u8>, bool)> = Vec::new();
        symbols.push((vstd::slice::slice_to_vec(sym.as_slice()), false));
        proof {
            assert(symbols@[0].0@ =~= seq![76u8, 65u8, 78u8, 71u8, 85u8, 65u8, 71u8, 69u8]);
        }
        let options = LanguageOptions {
            git: clone_bytes(git),
            symbols,
            crate_name: crate_name(lang),
            maintainers,
        };
        (clone_bytes(lang), options)
    }

    /// A registry pair for a language whose grammar crate exposes
    /// other symbols.
    pub fn pairs_with_symbol(
        lang: &Vec<u8>,
        git: &Vec<u8>,
        symbols: Vec<(Vec<u8>, bool)>,
        maintainers: Vec<Vec<u8>>,
    ) -> (r: (Vec<u8>, LanguageOptions))
        ensures
            r.0@ == lang@,
            r.1.git@ == git@,
            r.1.crate_name@ == spec_crate_name(lang@),
            r.1.symbols == symbols,
    {
        let options = LanguageOptions {
            git: clone_bytes(git),
            symbols,
            crate_name: crate_name(lang),
            maintainers,
        };
        (clone_bytes(lang), options)
    }

    /// A registry pair for a language whose grammar lives in a crate
    /// that is not named after it.
    pub fn pairs_with_symbol_and_crate(
        lang: &Vec<u8>,
        git: &Vec<u8>,
        symbols: Vec<(Vec<u8>, bool)>,
        crate_name: Vec<u8>,
        maintainers: Vec<Vec<u8>>,
    ) -> (r: (Vec<u8>, LanguageOptions))
        ensures
            r.0@ == lang@,
            r.1.git@ == git@,
            r.1.crate_name == crate_name,
            r.1.symbols == symbols,
    {
        let options = LanguageOptions { git: clone_bytes(git), symbols, crate_name, maintainers };
        (clone_bytes(lang), options)
    }
}

/// Splits a byte string on commas; empty pieces are kept.
pub open spec fn spec_split_commas(s: Seq<u8>) -> Seq<Seq<u8>>
    decreases s.len(),
{
    if s.len() == 0 {
        seq![Seq::empty()]
    } else if s[0] == 44 {
        seq![Seq::<u8>::empty()] + spec_split_commas(s.skip(1))
    } else {
        let rest = spec_split_commas(s.skip(1));
        seq![seq![s[0]] + rest[0]] + rest.skip(1)
    }
}

pub fn split_commas(s: &Vec<u8>) -> (r: Vec<Vec<u8>>)
    ensures
        r@.len() == spec_split_commas(s@).len(),
        forall|i: int| 0 <= i < r@.len() ==> (#[trigger] r@[i])@ == spec_split_commas(s@)[i],
{
    let mut out: Vec<Vec<u8>> = Vec::new();
    let mut piece: Vec<u8> = Vec::new();
    let mut i = s.len();
    while i > 0
        invariant
            i <= s@.len(),
            ({
                let sp = spec_split_commas(s@.skip(i as int));
                &&& piece@ == sp[0]
                &&& out@.len() == sp.len() - 1
                &&& forall|k: int| 0 <= k < out@.len() ==> (#[trigger] out@[k])@ == sp[k + 1]
            }),
        decreases i,
    {
        i = i - 1;
        let ghost before = s@.skip(i + 1);
        proof {
            assert(s@.skip(i as int)[0] == s@[i as int]);
            assert(s@.skip(i as int).skip(1) =~= before);
        }
        let b = s[i];
        if b == 44 {
            let done = piece;
            piece = Vec::new();
            out.insert(0, done);
        } else {
            piece.insert(0, b);
            proof {
                assert(piece@ =~= seq![s@[i as int]] + spec_split_commas(before)[0]);
            }
        }
    }
    proof {
        assert(s@.skip(0) =~= s@);
    }
    out.insert(0, piece);
    proof {
        assert forall|k: int| 0 <= k < out@.len() implies (#[trigger] out@[k])@ == spec_split_commas(
            s@,
        )[k] by {
            if k > 0 {
            }
        }
    }
    out
}

/// The bytes of the inheritance marker a query file may start with:
/// `; inherits: `.
pub open spec fn spec_inherits_marker() -> Seq<u8> {
    seq![59u8, 32u8, 105u8, 110u8, 104u8, 101u8, 114u8, 105u8, 116u8, 115u8, 58u8, 32u8]
}

/// The inherited query names of a query text: the comma-separated list
/// after `; inherits: ` on its first line, if that is how it starts.
pub fn parse_inherits(query: &Vec<u8>) -> (r: Option<Vec<Vec<u8>>>)
    ensures
        (r is Some) == spec_starts_with(query@, spec_inherits_marker()),
        r matches Some(names) ==> exists|end: int|
            {
                &&& 12 <= end <= query@.len()
                &&& (end == query@.len() || query@[end] == NL)
                &&& (forall|j: int| 12 <= j < end ==> query@[j] != NL)
                &&& names@.len() == spec_split_commas(#[trigger] query@.subrange(12, end)).len()
                &&& forall|k: int|
                    0 <= k < names@.len() ==> (#[trigger] names@[k])@ == spec_split_commas(
                        query@.subrange(12, end),
                    )[k]
            },
{
    let marker_arr: [u8; 12] = [59, 32, 105, 110, 104, 101, 114, 105, 116, 115, 58, 32];
    let marker = vstd::slice::slice_to_vec(marker_arr.as_slice());
    proof {
        assert(marker@ =~= spec_inherits_marker());
    }
    if !starts_with(query, &marker) {
        return None;
    }
    // the rest of the first line
    let mut end: usize = 12;
    while end < query.len() && query[end] != NL
        invariant
            12 <= end <= query@.len(),
            forall|j: int| 12 <= j < end ==> query@[j] != NL,
        decreases query@.len() - end,
    {
        end = end + 1;
    }
    let rest = crate::bytes::slice_of(query, 12, end);
    let names = split_commas(&rest);
    proof {
        assert(rest@ == query@.subrange(12, end as int));
    }
    Some(names)
}

/// Prepends an inherited query's text to a query, separated by a line
/// break, as inheritance resolution does for each named parent.
pub fn merge_queries(inherited: &Vec<u8>, own: &Vec<u8>) -> (r: Vec<u8>)
    ensures
        r@ == inherited@ + seq![NL] + own@,
{
    let mut out = clone_bytes(inherited);
    out.push(NL);
    let mut i: usize = 0;
    while i < own.len()
        invariant
            i <= own@.len(),
            out@ =~= inherited@ + seq![NL] + own@.take(i as int),
        decreases own@.len() - i,
    {
        out.push(own[i]);
        proof {
            assert(out@ =~= inherited@ + seq![NL] + own@.take(i + 1));
        }
        i = i + 1;
    }
    proof {
        assert(own@.take(own@.len() as int) =~= own@);
    }
    out
}

} // verus!
