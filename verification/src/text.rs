//! Splitting program text: a decoded program is a list of clauses
//! joined by `::`, and each clause is `code:ticker:param`.

use vstd::prelude::*;

verus! {

/// The views of a sequence of owned strings.
pub open spec fn views(parts: Seq<String>) -> Seq<Seq<char>> {
    parts.map_values(|p: String| p@)
}

/// Splitting on single `:` separators, with `cur` the field read so
/// far: mirrors `str::split(":")`.
pub open spec fn split1_rec(s: Seq<char>, cur: Seq<char>) -> Seq<Seq<char>>
    decreases s.len(),
{
    if s.len() == 0 {
        seq![cur]
    } else if s[0] == ':' {
        seq![cur] + split1_rec(s.drop_first(), Seq::empty())
    } else {
        split1_rec(s.drop_first(), cur.push(s[0]))
    }
}

/// The `:`-separated fields of `s`.
pub open spec fn spec_split_fields(s: Seq<char>) -> Seq<Seq<char>> {
    split1_rec(s, Seq::empty())
}

/// Splitting on the two-character separator `::`, scanning left to
/// right without overlap: mirrors `str::split("::")`.
pub open spec fn split2_rec(s: Seq<char>, cur: Seq<char>) -> Seq<Seq<char>>
    decreases s.len(),
{
    if s.len() == 0 {
        seq![cur]
    } else if s.len() >= 2 && s[0] == ':' && s[1] == ':' {
        seq![cur] + split2_rec(s.skip(2), Seq::empty())
    } else {
        split2_rec(s.skip(1), cur.push(s[0]))
    }
}

/// The `::`-separated clauses of a program text.
pub open spec fn spec_split_clauses(s: Seq<char>) -> Seq<Seq<char>> {
    split2_rec(s, Seq::empty())
}

/// Character-by-character string equality.
pub fn str_eq(a: &str, b: &str) -> (r: bool)
    ensures
        r == (a@ == b@),
{
    let n = a.unicode_len();
    if n != b.unicode_len() {
        return false;
    }
    let mut i: usize = 0;
    while i < n
        invariant
            i <= n,
            n == a@.len() == b@.len(),
            forall|k: int| 0 <= k < i ==> #[trigger] a@[k] == b@[k],
        decreases n - i,
    {
        if a.get_char(i) != b.get_char(i) {
            return false;
        }
        i = i + 1;
    }
    proof {
        assert(a@ =~= b@);
    }
    true
}

/// The number of `::` separators the clause split consumes, scanning
/// left to right without overlap.
pub open spec fn nsep(s: Seq<char>) -> int
    decreases s.len(),
{
    if s.len() == 0 {
        0
    } else if s.len() >= 2 && s[0] == ':' && s[1] == ':' {
        1 + nsep(s.skip(2))
    } else {
        nsep(s.skip(1))
    }
}

/// A clause split yields one part more than it consumes separators.
pub proof fn lemma_split2_parts_nsep(s: Seq<char>, cur: Seq<char>)
    ensures
        split2_rec(s, cur).len() == 1 + nsep(s),
    decreases s.len(),
{
    if s.len() == 0 {
    } else if s.len() >= 2 && s[0] == ':' && s[1] == ':' {
        lemma_split2_parts_nsep(s.skip(2), Seq::empty());
    } else {
        lemma_split2_parts_nsep(s.skip(1), cur.push(s[0]));
    }
}

/// Separator counts add over concatenation as long as no separator
/// straddles the boundary.
pub proof fn lemma_nsep_concat(x: Seq<char>, y: Seq<char>)
    requires
        !(x.len() > 0 && y.len() > 0 && x.last() == ':' && y[0] == ':'),
    ensures
        nsep(x + y) == nsep(x) + nsep(y),
    decreases x.len(),
{
    let s = x + y;
    if x.len() == 0 {
        assert(s =~= y);
    } else if x.len() >= 2 && x[0] == ':' && x[1] == ':' {
        assert(s[0] == ':' && s[1] == ':');
        assert(s.skip(2) =~= x.skip(2) + y);
        if x.len() > 2 {
            assert(x.skip(2).last() == x.last());
        }
        lemma_nsep_concat(x.skip(2), y);
    } else {
        if s.len() >= 2 && s[0] == ':' && s[1] == ':' {
            assert(x[0] == ':');
            if x.len() >= 2 {
                assert(x[1] == s[1]);
                assert(false);
            } else {
                assert(x.last() == ':' && y.len() > 0 && y[0] == s[1]);
                assert(false);
            }
        }
        assert(s.skip(1) =~= x.skip(1) + y);
        if x.len() > 1 {
            assert(x.skip(1).last() == x.last());
        }
        lemma_nsep_concat(x.skip(1), y);
    }
}

/// Text without two adjacent colons consumes no separator.
pub proof fn lemma_nsep_no_pair(s: Seq<char>)
    requires
        forall|i: int| 0 <= i < s.len() - 1 ==> !(#[trigger] s[i] == ':' && s[i + 1] == ':'),
    ensures
        nsep(s) == 0,
    decreases s.len(),
{
    if s.len() == 0 {
    } else {
        if s.len() >= 2 && s[0] == ':' && s[1] == ':' {
            let k: int = 0;
            assert(!(s[k] == ':' && s[k + 1] == ':'));
        }
        assert(forall|i: int|
            0 <= i < s.skip(1).len() - 1 ==> !(#[trigger] s.skip(1)[i] == ':' && s.skip(1)[i + 1]
                == ':')) by {
            assert(forall|i: int|
                0 <= i < s.skip(1).len() ==> #[trigger] s.skip(1)[i] == s[i + 1]);
        }
        lemma_nsep_no_pair(s.skip(1));
    }
}

/// Splits `s` at every `:`.
pub fn split_fields(s: &str) -> (parts: Vec<String>)
    ensures
        views(parts@) == spec_split_fields(s@),
{
    let n = s.unicode_len();
    let mut parts: Vec<String> = Vec::new();
    let mut start: usize = 0;
    let mut i: usize = 0;
    proof {
        assert(s@.skip(0) =~= s@);
        assert(s@.subrange(0, 0) =~= Seq::<char>::empty());
        assert(views(parts@) =~= Seq::<Seq<char>>::empty());
        assert(views(parts@) + split1_rec(s@, Seq::empty()) =~= split1_rec(s@, Seq::empty()));
    }
    while i < n
        invariant
            start <= i <= n,
            n == s@.len(),
            spec_split_fields(s@) == views(parts@) + split1_rec(
                s@.skip(i as int),
                s@.subrange(start as int, i as int),
            ),
        decreases n - i,
    {
        let ghost rest = s@.skip(i as int);
        let ghost cur = s@.subrange(start as int, i as int);
        let c = s.get_char(i);
        proof {
            assert(rest[0] == s@[i as int]);
        }
        if c == ':' {
            let ghost old_parts = parts@;
            let field = s.substring_char(start, i).to_owned();
            parts.push(field);
            proof {
                assert(rest.drop_first() =~= s@.skip(i as int + 1));
                assert(split1_rec(rest, cur) == seq![cur] + split1_rec(
                    s@.skip(i as int + 1),
                    Seq::empty(),
                ));
                assert(views(parts@) =~= views(old_parts).push(field@));
                assert(s@.subrange(i as int + 1, i as int + 1) =~= Seq::<char>::empty());
                assert(views(old_parts) + (seq![cur] + split1_rec(
                    s@.skip(i as int + 1),
                    Seq::empty(),
                )) =~= views(parts@) + split1_rec(s@.skip(i as int + 1), Seq::empty()));
            }
            start = i + 1;
            i = i + 1;
        } else {
            proof {
                assert(rest.drop_first() =~= s@.skip(i as int + 1));
                assert(split1_rec(rest, cur) == split1_rec(
                    s@.skip(i as int + 1),
                    cur.push(s@[i as int]),
                ));
                assert(cur.push(s@[i as int]) =~= s@.subrange(start as int, i as int + 1));
            }
            i = i + 1;
        }
    }
    let ghost old_parts = parts@;
    let field = s.substring_char(start, n).to_owned();
    parts.push(field);
    proof {
        assert(s@.skip(n as int).len() == 0);
        assert(split1_rec(s@.skip(n as int), s@.subrange(start as int, n as int)) == seq![
            s@.subrange(start as int, n as int),
        ]);
        assert(views(parts@) =~= views(old_parts).push(field@));
        assert(views(old_parts) + seq![field@] =~= views(parts@));
    }
    parts
}

/// Splits `s` at every non-overlapping `::`.
pub fn split_clauses(s: &str) -> (parts: Vec<String>)
    ensures
        views(parts@) == spec_split_clauses(s@),
{
    let n = s.unicode_len();
    let mut parts: Vec<String> = Vec::new();
    let mut start: usize = 0;
    let mut i: usize = 0;
    proof {
        assert(s@.skip(0) =~= s@);
        assert(s@.subrange(0, 0) =~= Seq::<char>::empty());
        assert(views(parts@) =~= Seq::<Seq<char>>::empty());
        assert(views(parts@) + split2_rec(s@, Seq::empty()) =~= split2_rec(s@, Seq::empty()));
    }
    while i < n
        invariant
            start <= i <= n,
            n == s@.len(),
            spec_split_clauses(s@) == views(parts@) + split2_rec(
                s@.skip(i as int),
                s@.subrange(start as int, i as int),
            ),
        decreases n - i,
    {
        let ghost rest = s@.skip(i as int);
        let ghost cur = s@.subrange(start as int, i as int);
        let c = s.get_char(i);
        proof {
            assert(rest[0] == s@[i as int]);
        }
        let mut is_sep = false;
        if c == ':' && i + 1 < n {
            let c2 = s.get_char(i + 1);
            proof {
                assert(rest[1] == s@[i as int + 1]);
            }
            if c2 == ':' {
                is_sep = true;
            }
        }
        if is_sep {
            let ghost old_parts = parts@;
            let field = s.substring_char(start, i).to_owned();
            parts.push(field);
            proof {
                assert(rest.skip(2) =~= s@.skip(i as int + 2));
                assert(split2_rec(rest, cur) == seq![cur] + split2_rec(
                    s@.skip(i as int + 2),
                    Seq::empty(),
                ));
                assert(views(parts@) =~= views(old_parts).push(field@));
                assert(s@.subrange(i as int + 2, i as int + 2) =~= Seq::<char>::empty());
                assert(views(old_parts) + (seq![cur] + split2_rec(
                    s@.skip(i as int + 2),
                    Seq::empty(),
                )) =~= views(parts@) + split2_rec(s@.skip(i as int + 2), Seq::empty()));
            }
            start = i + 2;
            i = i + 2;
        } else {
            proof {
                assert(!(rest.len() >= 2 && rest[0] == ':' && rest[1] == ':'));
                assert(rest.skip(1) =~= s@.skip(i as int + 1));
                assert(split2_rec(rest, cur) == split2_rec(
                    s@.skip(i as int + 1),
                    cur.push(s@[i as int]),
                ));
                assert(cur.push(s@[i as int]) =~= s@.subrange(start as int, i as int + 1));
            }
            i = i + 1;
        }
    }
    let ghost old_parts = parts@;
    let field = s.substring_char(start, n).to_owned();
    parts.push(field);
    proof {
        assert(s@.skip(n as int).len() == 0);
        assert(split2_rec(s@.skip(n as int), s@.subrange(start as int, n as int)) == seq![
            s@.subrange(start as int, n as int),
        ]);
        assert(views(parts@) =~= views(old_parts).push(field@));
        assert(views(old_parts) + seq![field@] =~= views(parts@));
    }
    parts
}

} // verus!
