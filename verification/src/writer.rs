//! Formatting collections as quoted brace lists, the shape the
//! population and signal sinks persist arrays in.

use vstd::prelude::*;

use crate::decimal::spec_decimal;
use crate::decimal::u128_to_string;
use crate::text::views;

verus! {

/// The `,`-prefixed tail of a brace list, from part `k` on.
pub open spec fn spec_comma_tail(parts: Seq<Seq<char>>, k: int) -> Seq<char>
    decreases parts.len() - k,
{
    if k < 0 || k >= parts.len() {
        Seq::empty()
    } else {
        seq![','] + parts[k] + spec_comma_tail(parts, k + 1)
    }
}

/// A non-empty list of parts as `"{p0,p1,...}"`, quotes included.
pub open spec fn spec_braced(parts: Seq<Seq<char>>) -> Seq<char> {
    seq!['"', '{'] + parts[0] + spec_comma_tail(parts, 1) + seq!['}', '"']
}

/// Formats a non-empty vector of strings as a quoted brace list.
pub fn fmt_vec_string(strings: Vec<String>) -> (s: String)
    requires
        strings@.len() >= 1,
    ensures
        s@ == spec_braced(views(strings@)),
{
    let ghost parts = views(strings@);
    let mut s = String::new();
    proof {
        reveal_strlit("\"{");
    }
    s.append("\"{");
    s.append(strings[0].as_str());
    proof {
        assert(parts[0] == strings@[0]@);
        assert(s@ =~= seq!['"', '{'] + parts[0]);
    }
    let mut k: usize = 1;
    while k < strings.len()
        invariant
            1 <= k <= strings@.len(),
            parts == views(strings@),
            seq!['"', '{'] + parts[0] + spec_comma_tail(parts, 1) =~= s@ + spec_comma_tail(
                parts,
                k as int,
            ),
        decreases strings@.len() - k,
    {
        proof {
            reveal_strlit(",");
            assert(parts[k as int] == strings@[k as int]@);
        }
        s.append(",");
        s.append(strings[k].as_str());
        proof {
            assert(seq!['"', '{'] + parts[0] + spec_comma_tail(parts, 1) =~= s@
                + spec_comma_tail(parts, k as int + 1));
        }
        k = k + 1;
    }
    proof {
        reveal_strlit("}\"");
        assert(spec_comma_tail(parts, strings@.len() as int) =~= Seq::<char>::empty());
    }
    s.append("}\"");
    proof {
        assert(s@ =~= spec_braced(parts));
    }
    s
}

/// The decimal numerals of a codon sequence.
pub open spec fn dna_numerals(d: Seq<i32>) -> Seq<Seq<char>> {
    d.map_values(|b: i32| spec_decimal(b as int))
}

/// Formats a non-empty codon sequence as a quoted brace list of
/// decimal numerals.
pub fn fmt_vec_dna(dna: Vec<i32>) -> (s: String)
    requires
        dna@.len() >= 1,
        forall|i: int| 0 <= i < dna@.len() ==> #[trigger] dna@[i] >= 0,
    ensures
        s@ == spec_braced(dna_numerals(dna@)),
{
    let ghost parts = dna_numerals(dna@);
    let mut s = String::new();
    proof {
        reveal_strlit("\"{");
    }
    s.append("\"{");
    let first = u128_to_string(dna[0] as u128);
    s.append(first.as_str());
    proof {
        assert(parts[0] == spec_decimal(dna@[0] as int));
        assert(s@ =~= seq!['"', '{'] + parts[0]);
    }
    let mut k: usize = 1;
    while k < dna.len()
        invariant
            1 <= k <= dna@.len(),
            parts == dna_numerals(dna@),
            forall|i: int| 0 <= i < dna@.len() ==> #[trigger] dna@[i] >= 0,
            seq!['"', '{'] + parts[0] + spec_comma_tail(parts, 1) =~= s@ + spec_comma_tail(
                parts,
                k as int,
            ),
        decreases dna@.len() - k,
    {
        proof {
            reveal_strlit(",");
            assert(parts[k as int] == spec_decimal(dna@[k as int] as int));
        }
        s.append(",");
        let piece = u128_to_string(dna[k] as u128);
        s.append(piece.as_str());
        proof {
            assert(seq!['"', '{'] + parts[0] + spec_comma_tail(parts, 1) =~= s@
                + spec_comma_tail(parts, k as int + 1));
        }
        k = k + 1;
    }
    proof {
        reveal_strlit("}\"");
        assert(spec_comma_tail(parts, dna@.len() as int) =~= Seq::<char>::empty());
    }
    s.append("}\"");
    proof {
        assert(s@ =~= spec_braced(parts));
    }
    s
}

} // verus!
