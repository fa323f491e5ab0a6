//! The grammar decoder: turning a codon sequence into program text.
//!
//! Decoding starts from the root placeholder `<code>` and consumes one
//! codon per step.  Each step resolves the highest-priority placeholder
//! left in the text — ticker first, then parameter, then clause
//! template, then statement template — indexing the matching table by
//! `codon mod table-length` (a parameter placeholder instead takes the
//! codon's decimal value).  When the codons run out, a dangling
//! `::<code>` suffix is stripped; any other unresolved placeholder is
//! left in the text as it stands.

use vstd::prelude::*;

use crate::decimal::spec_decimal;
use crate::decimal::u128_to_string;
use crate::draws::fresh_id;
use crate::ratio::Ratio;
use crate::text::spec_split_clauses;
use crate::text::split2_rec;
use crate::text::split_clauses;
use crate::text::views;

verus! {

/// Largest codon value the genetic operators may produce; one below
/// `i32::MAX` so a mutation step can always add one.
pub open spec fn codon_limit() -> int {
    0x7fff_fffe
}

/// A codon sequence usable by the decoder and the genetic operators:
/// every codon at least 1 (a zero parameter would make an indicator
/// read the current bar as its own window) and below the overflow
/// limit.
pub open spec fn dna_wf(d: Seq<i32>) -> bool {
    forall|i: int| 0 <= i < d.len() ==> 1 <= #[trigger] d[i] <= codon_limit()
}

/// The grammar tables a program is decoded against: the ticker
/// universe and the strategy-template table, each template being the
/// clause shape `code:<ticker>:<param>` identified by its code.  The
/// two-entry statement table (`<stmnt>` and `<stmnt>::<code>`) is
/// built into the decoding step.
#[derive(Debug, Clone)]
pub struct Grammar {
    pub tickers: Vec<String>,
    pub strategies: Vec<String>,
}

impl Grammar {
    /// The ticker table as character sequences.
    pub open spec fn tks(&self) -> Seq<Seq<char>> {
        views(self.tickers@)
    }

    /// The strategy-code table as character sequences.
    pub open spec fn sts(&self) -> Seq<Seq<char>> {
        views(self.strategies@)
    }

    /// Both tables are non-empty, small enough for `i32` modulus, and
    /// free of oversized entries.
    pub open spec fn wf(&self) -> bool {
        grammar_wf(self.tks(), self.sts())
    }
}

/// See `Grammar::wf`.
pub open spec fn grammar_wf(tks: Seq<Seq<char>>, sts: Seq<Seq<char>>) -> bool {
    &&& 1 <= tks.len() <= 30000
    &&& 1 <= sts.len() <= 30000
    &&& forall|i: int| 0 <= i < tks.len() ==> #[trigger] tks[i].len() <= 256
    &&& forall|i: int| 0 <= i < sts.len() ==> #[trigger] sts[i].len() <= 256
}

/// Table entries that cannot interfere with the program's own
/// punctuation: non-empty and free of `:` and `<`.
pub open spec fn grammar_clean(tks: Seq<Seq<char>>, sts: Seq<Seq<char>>) -> bool {
    &&& forall|i: int| 0 <= i < tks.len() ==> entry_clean(#[trigger] tks[i])
    &&& forall|i: int| 0 <= i < sts.len() ==> entry_clean(#[trigger] sts[i])
}

/// See `grammar_clean`.
pub open spec fn entry_clean(e: Seq<char>) -> bool {
    &&& e.len() >= 1
    &&& forall|i: int| 0 <= i < e.len() ==> #[trigger] e[i] != ':' && e[i] != '<'
}

/// What remains unresolved in a partially decoded program.  The
/// decoded prefix is carried separately; this is the shape of the
/// text's tail.
#[derive(Clone, Copy, Debug, PartialEq, Eq, Structural)]
pub enum Tail {
    /// The root `<code>` placeholder, still untouched.
    NeedCodeFirst,
    /// A `<stmnt>` placeholder; `chain` records whether `::<code>`
    /// follows it.
    NeedStmnt { chain: bool },
    /// `<ticker>:<param>` of a chosen clause template.
    NeedTicker { chain: bool },
    /// `<param>` of a chosen clause template.
    NeedParam { chain: bool },
    /// A trailing `::<code>`, which rendering strips.
    NeedCodeChained,
    /// Nothing unresolved.
    Done,
}

/// The text a tail stands for after the final `::<code>` strip.
pub open spec fn render_tail(tail: Tail) -> Seq<char> {
    match tail {
        Tail::NeedCodeFirst => "<code>"@,
        Tail::NeedStmnt { .. } => "<stmnt>"@,
        Tail::NeedTicker { .. } => "<ticker>:<param>"@,
        Tail::NeedParam { .. } => "<param>"@,
        Tail::NeedCodeChained => Seq::empty(),
        Tail::Done => Seq::empty(),
    }
}

/// How consuming codon `b` advances the tail shape alone.
pub open spec fn step_tail(tail: Tail, b: int) -> Tail {
    match tail {
        Tail::NeedCodeFirst => Tail::NeedStmnt { chain: b % 2 == 1 },
        Tail::NeedStmnt { chain } => Tail::NeedTicker { chain },
        Tail::NeedTicker { chain } => Tail::NeedParam { chain },
        Tail::NeedParam { chain } => if chain {
            Tail::NeedCodeChained
        } else {
            Tail::Done
        },
        Tail::NeedCodeChained => Tail::NeedStmnt { chain: b % 2 == 1 },
        Tail::Done => Tail::Done,
    }
}

/// One decoding step: consuming codon `b` resolves the
/// highest-priority placeholder of the tail, extending the decoded
/// prefix `acc`.
pub open spec fn decode_step(acc: Seq<char>, tail: Tail, b: int, tks: Seq<Seq<char>>, sts: Seq<
    Seq<char>,
>) -> (Seq<char>, Tail) {
    let acc2 = match tail {
        Tail::NeedCodeFirst => acc,
        Tail::NeedStmnt { .. } => acc + sts[b % (sts.len() as int)] + seq![':'],
        Tail::NeedTicker { .. } => acc + tks[b % (tks.len() as int)] + seq![':'],
        Tail::NeedParam { .. } => acc + spec_decimal(b),
        Tail::NeedCodeChained => acc + seq![':', ':'],
        Tail::Done => acc,
    };
    (acc2, step_tail(tail, b))
}

/// Folds the remaining codons over the decoding step and renders the
/// final text.
pub open spec fn decode_from(acc: Seq<char>, tail: Tail, dna: Seq<i32>, tks: Seq<Seq<char>>, sts: Seq<
    Seq<char>,
>) -> Seq<char>
    decreases dna.len(),
{
    if dna.len() == 0 {
        acc + render_tail(tail)
    } else {
        let stepped = decode_step(acc, tail, dna[0] as int, tks, sts);
        decode_from(stepped.0, stepped.1, dna.skip(1), tks, sts)
    }
}

/// The program text a codon sequence decodes to under the given
/// tables.
pub open spec fn spec_decode(dna: Seq<i32>, tks: Seq<Seq<char>>, sts: Seq<Seq<char>>) -> Seq<
    char,
> {
    decode_from(Seq::empty(), Tail::NeedCodeFirst, dna, tks, sts)
}

/// Decoding is deterministic: the output depends on the codons and
/// the tables alone, so equal inputs decode to equal program text.
pub proof fn lemma_decode_deterministic(
    dna1: Seq<i32>,
    dna2: Seq<i32>,
    tks: Seq<Seq<char>>,
    sts: Seq<Seq<char>>,
)
    requires
        dna1 == dna2,
    ensures
        spec_decode(dna1, tks, sts) == spec_decode(dna2, tks, sts),
{
}

/// A partially decoded program: the resolved prefix and the shape of
/// what is still unresolved.
#[derive(Debug)]
pub struct DecodeState {
    pub text: String,
    pub tail: Tail,
}

/// Resolves the next placeholder with codon `base`: the executable
/// counterpart of `decode_step`.
pub fn expand_code(state: DecodeState, base: i32, grammar: &Grammar) -> (r: DecodeState)
    requires
        grammar.wf(),
        1 <= base,
    ensures
        r.text@ == decode_step(state.text@, state.tail, base as int, grammar.tks(), grammar.sts()).0,
        r.tail == decode_step(state.text@, state.tail, base as int, grammar.tks(), grammar.sts()).1,
{
    let mut text = state.text;
    match state.tail {
        Tail::NeedCodeFirst => {
            let chain = base % 2 == 1;
            DecodeState { text, tail: Tail::NeedStmnt { chain } }
        },
        Tail::NeedStmnt { chain } => {
            let k = (base % (grammar.strategies.len() as i32)) as usize;
            proof {
                assert(grammar.sts()[k as int] == grammar.strategies@[k as int]@);
            }
            text.append(grammar.strategies[k].as_str());
            text.append(":");
            proof {
                reveal_strlit(":");
                assert(text@ =~= state.text@ + grammar.sts()[k as int] + seq![':']);
            }
            DecodeState { text, tail: Tail::NeedTicker { chain } }
        },
        Tail::NeedTicker { chain } => {
            let k = (base % (grammar.tickers.len() as i32)) as usize;
            proof {
                assert(grammar.tks()[k as int] == grammar.tickers@[k as int]@);
            }
            text.append(grammar.tickers[k].as_str());
            text.append(":");
            proof {
                reveal_strlit(":");
                assert(text@ =~= state.text@ + grammar.tks()[k as int] + seq![':']);
            }
            DecodeState { text, tail: Tail::NeedParam { chain } }
        },
        Tail::NeedParam { chain } => {
            let numeral = u128_to_string(base as u128);
            text.append(numeral.as_str());
            let tail = if chain {
                Tail::NeedCodeChained
            } else {
                Tail::Done
            };
            DecodeState { text, tail }
        },
        Tail::NeedCodeChained => {
            let chain = base % 2 == 1;
            text.append("::");
            proof {
                reveal_strlit("::");
                assert(text@ =~= state.text@ + seq![':', ':']);
            }
            DecodeState { text, tail: Tail::NeedStmnt { chain } }
        },
        Tail::Done => DecodeState { text, tail: Tail::Done },
    }
}

/// Decodes a codon sequence against the grammar tables, starting from
/// the root placeholder `code` (always the literal `<code>`), and
/// strips a dangling `::<code>` suffix.
#[allow(unused_variables)]
pub fn decode_dna(code: String, dna: &Vec<i32>, grammar: &Grammar) -> (s: String)
    requires
        code@ == "<code>"@,
        grammar.wf(),
        dna_wf(dna@),
    ensures
        s@ == spec_decode(dna@, grammar.tks(), grammar.sts()),
{
    let mut state = DecodeState { text: String::new(), tail: Tail::NeedCodeFirst };
    let mut i: usize = 0;
    proof {
        assert(dna@.skip(0) =~= dna@);
    }
    while i < dna.len()
        invariant
            i <= dna.len(),
            grammar.wf(),
            dna_wf(dna@),
            spec_decode(dna@, grammar.tks(), grammar.sts()) == decode_from(
                state.text@,
                state.tail,
                dna@.skip(i as int),
                grammar.tks(),
                grammar.sts(),
            ),
        decreases dna.len() - i,
    {
        let ghost rest = dna@.skip(i as int);
        let base = dna[i];
        proof {
            assert(rest[0] == dna@[i as int]);
            assert(rest.skip(1) =~= dna@.skip(i as int + 1));
        }
        state = expand_code(state, base, grammar);
        i = i + 1;
    }
    proof {
        assert(dna@.skip(dna@.len() as int).len() == 0);
    }
    let mut text = state.text;
    match state.tail {
        Tail::NeedCodeFirst => {
            text.append("<code>");
        },
        Tail::NeedStmnt { .. } => {
            text.append("<stmnt>");
        },
        Tail::NeedTicker { .. } => {
            text.append("<ticker>:<param>");
        },
        Tail::NeedParam { .. } => {
            text.append("<param>");
        },
        Tail::NeedCodeChained => {},
        Tail::Done => {},
    }
    proof {
        assert(text@ =~= state.text@ + render_tail(state.tail));
    }
    text
}

/// Ten to the `k`-th power.
pub open spec fn pow10(k: nat) -> int
    decreases k,
{
    if k == 0 {
        1
    } else {
        10 * pow10((k - 1) as nat)
    }
}

proof fn lemma_pow10_pos(k: nat)
    ensures
        pow10(k) >= 1,
    decreases k,
{
    if k > 0 {
        lemma_pow10_pos((k - 1) as nat);
    }
}

/// A value below `10^k` has at most `k` decimal digits.
proof fn lemma_decimal_len(n: int, k: nat)
    requires
        0 <= n < pow10(k),
        1 <= k,
    ensures
        spec_decimal(n).len() <= k,
    decreases k,
{
    if n < 10 {
        assert(spec_decimal(n).len() == 1);
    } else {
        let p = pow10((k - 1) as nat);
        assert(pow10(k) == 10 * p);
        lemma_pow10_pos((k - 1) as nat);
        assert(k >= 2) by {
            if k == 1 {
                assert(pow10(1nat) == 10);
            }
        }
        assert(n / 10 < p) by {
            if n / 10 >= p {
                assert(n >= 10 * (n / 10)) by (nonlinear_arith);
                assert(10 * (n / 10) >= 10 * p) by (nonlinear_arith)
                    requires
                        n / 10 >= p,
                ;
            }
        }
        lemma_decimal_len(n / 10, (k - 1) as nat);
        assert(spec_decimal(n) == spec_decimal(n / 10).push(
            crate::decimal::digit_char(n % 10),
        ));
    }
}

/// The bound `pow10(10)` written out, for use with codon numerals.
proof fn lemma_pow10_ten()
    ensures
        pow10(10) == 10_000_000_000,
{
    assert(pow10(0nat) == 1);
    assert(pow10(1nat) == 10);
    assert(pow10(2nat) == 100);
    assert(pow10(3nat) == 1000);
    assert(pow10(4nat) == 10000);
    assert(pow10(5nat) == 100000);
    assert(pow10(6nat) == 1000000);
    assert(pow10(7nat) == 10000000);
    assert(pow10(8nat) == 100000000);
    assert(pow10(9nat) == 1000000000);
    assert(pow10(10nat) == 10000000000);
}

proof fn lemma_render_len(tail: Tail)
    ensures
        render_tail(tail).len() <= 16,
{
    reveal_strlit("<code>");
    reveal_strlit("<stmnt>");
    reveal_strlit("<ticker>:<param>");
    reveal_strlit("<param>");
}

/// Each decoding step grows the text by a bounded amount, so the
/// whole output is linear in the codon count.
proof fn lemma_decode_from_len(
    acc: Seq<char>,
    tail: Tail,
    dna: Seq<i32>,
    tks: Seq<Seq<char>>,
    sts: Seq<Seq<char>>,
)
    requires
        grammar_wf(tks, sts),
        dna_wf(dna),
    ensures
        decode_from(acc, tail, dna, tks, sts).len() <= acc.len() + 16 + 257 * dna.len(),
    decreases dna.len(),
{
    if dna.len() == 0 {
        lemma_render_len(tail);
    } else {
        let b = dna[0] as int;
        let stepped = decode_step(acc, tail, b, tks, sts);
        assert(stepped.0.len() <= acc.len() + 257) by {
            match tail {
                Tail::NeedStmnt { .. } => {
                    assert(0 <= b % (sts.len() as int) < sts.len());
                },
                Tail::NeedTicker { .. } => {
                    assert(0 <= b % (tks.len() as int) < tks.len());
                },
                Tail::NeedParam { .. } => {
                    lemma_pow10_ten();
                    lemma_decimal_len(b, 10);
                },
                _ => {},
            }
        }
        assert(dna_wf(dna.skip(1))) by {
            assert(forall|i: int|
                0 <= i < dna.skip(1).len() ==> #[trigger] dna.skip(1)[i] == dna[i + 1]);
        }
        lemma_decode_from_len(stepped.0, stepped.1, dna.skip(1), tks, sts);
    }
}

/// A split can produce at most one more part than there are
/// characters.
proof fn lemma_split2_len_bound(s: Seq<char>, cur: Seq<char>)
    ensures
        split2_rec(s, cur).len() <= s.len() + 1,
    decreases s.len(),
{
    if s.len() == 0 {
    } else if s.len() >= 2 && s[0] == ':' && s[1] == ':' {
        lemma_split2_len_bound(s.skip(2), Seq::empty());
    } else {
        lemma_split2_len_bound(s.skip(1), cur.push(s[0]));
    }
}

/// How many statement-table selections decoding consumes: one for
/// each codon spent on a `<code>` placeholder, root or chained.
pub open spec fn selections_from(tail: Tail, dna: Seq<i32>) -> int
    decreases dna.len(),
{
    if dna.len() == 0 {
        0
    } else {
        (if tail is NeedCodeFirst || tail is NeedCodeChained {
            1int
        } else {
            0int
        }) + selections_from(step_tail(tail, dna[0] as int), dna.skip(1))
    }
}

/// Statement selections consumed when decoding starts at the root.
pub open spec fn spec_selections(dna: Seq<i32>) -> int {
    selections_from(Tail::NeedCodeFirst, dna)
}

/// Selections consumed on chained `<code>` placeholders only.
pub open spec fn chains_from(tail: Tail, dna: Seq<i32>) -> int
    decreases dna.len(),
{
    if dna.len() == 0 {
        0
    } else {
        (if tail is NeedCodeChained {
            1int
        } else {
            0int
        }) + chains_from(step_tail(tail, dna[0] as int), dna.skip(1))
    }
}

proof fn lemma_selections_bound(tail: Tail, dna: Seq<i32>)
    ensures
        0 <= selections_from(tail, dna) <= dna.len(),
        0 <= chains_from(tail, dna) <= dna.len(),
    decreases dna.len(),
{
    if dna.len() > 0 {
        lemma_selections_bound(step_tail(tail, dna[0] as int), dna.skip(1));
    }
}

/// Away from the root placeholder, every selection is a chained one:
/// the root state never recurs.
proof fn lemma_selections_chains(tail: Tail, dna: Seq<i32>)
    requires
        !(tail is NeedCodeFirst),
    ensures
        selections_from(tail, dna) == chains_from(tail, dna),
    decreases dna.len(),
{
    if dna.len() > 0 {
        lemma_selections_chains(step_tail(tail, dna[0] as int), dna.skip(1));
    }
}

proof fn lemma_render_clean(tail: Tail)
    ensures
        crate::text::nsep(render_tail(tail)) == 0,
        render_tail(tail).len() > 0 ==> render_tail(tail)[0] != ':',
{
    reveal_strlit("<code>");
    reveal_strlit("<stmnt>");
    reveal_strlit("<ticker>:<param>");
    reveal_strlit("<param>");
    crate::text::lemma_nsep_no_pair(render_tail(tail));
}

/// No character of a decimal numeral is a colon.
proof fn lemma_decimal_no_colon(n: int)
    requires
        n >= 0,
    ensures
        spec_decimal(n).len() >= 1,
        forall|i: int| 0 <= i < spec_decimal(n).len() ==> #[trigger] spec_decimal(n)[i] != ':',
    decreases n,
{
    if n < 10 {
    } else {
        lemma_decimal_no_colon(n / 10);
        assert(spec_decimal(n) == spec_decimal(n / 10).push(crate::decimal::digit_char(n % 10)));
        assert(forall|i: int|
            0 <= i < spec_decimal(n / 10).len() ==> #[trigger] spec_decimal(n)[i] == spec_decimal(
                n / 10,
            )[i]);
    }
}

/// Every `::` in decoded text was written by a chained statement
/// selection: no table entry and no numeral contributes one.
proof fn lemma_decode_nsep(
    acc: Seq<char>,
    tail: Tail,
    dna: Seq<i32>,
    tks: Seq<Seq<char>>,
    sts: Seq<Seq<char>>,
)
    requires
        grammar_wf(tks, sts),
        grammar_clean(tks, sts),
        dna_wf(dna),
        tail is NeedCodeChained ==> acc.len() > 0 && acc.last() != ':',
    ensures
        crate::text::nsep(decode_from(acc, tail, dna, tks, sts)) == crate::text::nsep(acc)
            + chains_from(tail, dna),
    decreases dna.len(),
{
    if dna.len() == 0 {
        lemma_render_clean(tail);
        crate::text::lemma_nsep_concat(acc, render_tail(tail));
    } else {
        let b = dna[0] as int;
        let stepped = decode_step(acc, tail, b, tks, sts);
        assert(dna_wf(dna.skip(1))) by {
            assert(forall|i: int|
                0 <= i < dna.skip(1).len() ==> #[trigger] dna.skip(1)[i] == dna[i + 1]);
        }
        match tail {
            Tail::NeedCodeFirst => {
                lemma_decode_nsep(acc, stepped.1, dna.skip(1), tks, sts);
            },
            Tail::NeedStmnt { .. } => {
                let e = sts[b % (sts.len() as int)];
                assert(entry_clean(e));
                crate::text::lemma_nsep_no_pair(e);
                crate::text::lemma_nsep_concat(acc, e);
                crate::text::lemma_nsep_no_pair(seq![':']);
                assert((acc + e).last() == e.last());
                crate::text::lemma_nsep_concat(acc + e, seq![':']);
                assert(stepped.0 == acc + e + seq![':']);
                assert(stepped.0.last() == ':');
                lemma_decode_nsep(stepped.0, stepped.1, dna.skip(1), tks, sts);
            },
            Tail::NeedTicker { .. } => {
                let e = tks[b % (tks.len() as int)];
                assert(entry_clean(e));
                crate::text::lemma_nsep_no_pair(e);
                crate::text::lemma_nsep_concat(acc, e);
                crate::text::lemma_nsep_no_pair(seq![':']);
                assert((acc + e).last() == e.last());
                crate::text::lemma_nsep_concat(acc + e, seq![':']);
                assert(stepped.0 == acc + e + seq![':']);
                lemma_decode_nsep(stepped.0, stepped.1, dna.skip(1), tks, sts);
            },
            Tail::NeedParam { .. } => {
                let d = spec_decimal(b);
                lemma_decimal_no_colon(b);
                crate::text::lemma_nsep_no_pair(d);
                crate::text::lemma_nsep_concat(acc, d);
                assert(stepped.0 == acc + d);
                assert(stepped.0.last() == d.last());
                lemma_decode_nsep(stepped.0, stepped.1, dna.skip(1), tks, sts);
            },
            Tail::NeedCodeChained => {
                let sep = seq![':', ':'];
                assert(crate::text::nsep(sep) == 1) by {
                    assert(sep.skip(2) =~= Seq::<char>::empty());
                    assert(crate::text::nsep(Seq::<char>::empty()) == 0);
                }
                crate::text::lemma_nsep_concat(acc, sep);
                assert(stepped.0 == acc + sep);
                lemma_decode_nsep(stepped.0, stepped.1, dna.skip(1), tks, sts);
            },
            Tail::Done => {
                lemma_decode_nsep(acc, stepped.1, dna.skip(1), tks, sts);
            },
        }
    }
}

/// Clause-count law: with clean tables, the decoded program has
/// exactly as many `::`-separated clauses as statement-table
/// selections were consumed, and that count never exceeds the codon
/// count.
pub proof fn lemma_decode_clause_count(dna: Seq<i32>, tks: Seq<Seq<char>>, sts: Seq<Seq<char>>)
    requires
        grammar_wf(tks, sts),
        grammar_clean(tks, sts),
        dna_wf(dna),
        dna.len() >= 1,
    ensures
        spec_split_clauses(spec_decode(dna, tks, sts)).len() == spec_selections(dna),
        1 <= spec_selections(dna) <= dna.len(),
{
    let out = spec_decode(dna, tks, sts);
    lemma_decode_nsep(Seq::empty(), Tail::NeedCodeFirst, dna, tks, sts);
    crate::text::lemma_split2_parts_nsep(out, Seq::empty());
    assert(crate::text::nsep(Seq::<char>::empty()) == 0);
    let t1 = step_tail(Tail::NeedCodeFirst, dna[0] as int);
    lemma_selections_chains(t1, dna.skip(1));
    lemma_selections_bound(t1, dna.skip(1));
    assert(spec_selections(dna) == 1 + selections_from(t1, dna.skip(1)));
    assert(chains_from(Tail::NeedCodeFirst, dna) == chains_from(t1, dna.skip(1)));
}

/// Corollary for fresh candidates: the clause count stored at
/// creation is exactly the number of statement selections decoding
/// consumed, never more than the codon count.
pub proof fn lemma_fresh_clause_count(
    c: Chromosome,
    dna: Seq<i32>,
    generation: int,
    ticker: Seq<char>,
    tks: Seq<Seq<char>>,
    sts: Seq<Seq<char>>,
)
    requires
        chrom_fresh(c, dna, generation, ticker, tks, sts),
        grammar_wf(tks, sts),
        grammar_clean(tks, sts),
        dna_wf(dna),
        dna.len() >= 1,
    ensures
        c.chromosome_length == spec_selections(dna),
        1 <= c.chromosome_length <= dna.len(),
{
    lemma_decode_clause_count(dna, tks, sts);
}

/// A candidate program: its identity, decoded text, codon sequence,
/// and the fitness record the evaluator and ranker fill in.
#[derive(Debug, Clone)]
pub struct Chromosome {
    pub id: u128,
    pub target_ticker: String,
    pub chromosome: String,
    pub dna: Vec<i32>,
    pub generation: i32,
    pub chromosome_length: i32,
    pub kelly: Ratio,
    pub cum_pnl: i64,
    pub variance: Ratio,
    pub mean_return: Ratio,
    pub w_kelly: Ratio,
    pub num_of_trades: i32,
    pub winning_trades: i32,
    pub losing_trades: i32,
    pub percentage_winners: Ratio,
    pub rank: i32,
}

/// Every fitness field still holds its pre-evaluation zero.
pub open spec fn fitness_zero(c: Chromosome) -> bool {
    &&& c.kelly.spec_is_zero() && c.kelly.wf()
    &&& c.cum_pnl == 0
    &&& c.variance.spec_is_zero() && c.variance.wf()
    &&& c.mean_return.spec_is_zero() && c.mean_return.wf()
    &&& c.w_kelly.spec_is_zero() && c.w_kelly.wf()
    &&& c.num_of_trades == 0
    &&& c.winning_trades == 0
    &&& c.losing_trades == 0
    &&& c.percentage_winners.spec_is_zero() && c.percentage_winners.wf()
    &&& c.rank == 0
}

/// What a freshly decoded candidate holds: its codons, their decoded
/// text, the clause count of that text, and zeroed fitness.
pub open spec fn chrom_fresh(
    c: Chromosome,
    dna: Seq<i32>,
    generation: int,
    ticker: Seq<char>,
    tks: Seq<Seq<char>>,
    sts: Seq<Seq<char>>,
) -> bool {
    &&& c.dna@ == dna
    &&& c.chromosome@ == spec_decode(dna, tks, sts)
    &&& c.generation == generation
    &&& c.target_ticker@ == ticker
    &&& c.chromosome_length == spec_split_clauses(spec_decode(dna, tks, sts)).len()
    &&& fitness_zero(c)
}

fn entry_ok(s: &String) -> (b: bool)
    ensures
        b == (s@.len() <= 256 && entry_clean(s@)),
{
    let n = s.as_str().unicode_len();
    if n == 0 || n > 256 {
        return false;
    }
    let mut i: usize = 0;
    while i < n
        invariant
            i <= n,
            n == s@.len(),
            1 <= n <= 256,
            forall|k: int| 0 <= k < i ==> #[trigger] s@[k] != ':' && s@[k] != '<',
        decreases n - i,
    {
        let c = s.as_str().get_char(i);
        if c == ':' || c == '<' {
            return false;
        }
        i = i + 1;
    }
    true
}

/// Checks at run time that grammar tables are well-formed and clean,
/// as `decode_dna` and the clause-count law assume.
pub fn grammar_ok(grammar: &Grammar) -> (b: bool)
    ensures
        b == (grammar.wf() && grammar_clean(grammar.tks(), grammar.sts())),
{
    let tn = grammar.tickers.len();
    let sn = grammar.strategies.len();
    if tn < 1 || tn > 30000 || sn < 1 || sn > 30000 {
        return false;
    }
    let mut i: usize = 0;
    while i < tn
        invariant
            i <= tn,
            tn == grammar.tickers@.len(),
            forall|k: int|
                0 <= k < i ==> #[trigger] grammar.tks()[k].len() <= 256 && entry_clean(
                    grammar.tks()[k],
                ),
        decreases tn - i,
    {
        if !entry_ok(&grammar.tickers[i]) {
            proof {
                assert(grammar.tks()[i as int] == grammar.tickers@[i as int]@);
            }
            return false;
        }
        proof {
            assert(grammar.tks()[i as int] == grammar.tickers@[i as int]@);
        }
        i = i + 1;
    }
    let mut j: usize = 0;
    while j < sn
        invariant
            j <= sn,
            sn == grammar.strategies@.len(),
            tn == grammar.tickers@.len(),
            1 <= tn <= 30000,
            forall|k: int|
                0 <= k < tn ==> #[trigger] grammar.tks()[k].len() <= 256 && entry_clean(
                    grammar.tks()[k],
                ),
            forall|k: int|
                0 <= k < j ==> #[trigger] grammar.sts()[k].len() <= 256 && entry_clean(
                    grammar.sts()[k],
                ),
        decreases sn - j,
    {
        if !entry_ok(&grammar.strategies[j]) {
            proof {
                assert(grammar.sts()[j as int] == grammar.strategies@[j as int]@);
            }
            return false;
        }
        proof {
            assert(grammar.sts()[j as int] == grammar.strategies@[j as int]@);
        }
        j = j + 1;
    }
    true
}

/// Decodes each codon sequence into a fresh candidate of the given
/// generation: identity drawn fresh, fitness zeroed, clause count
/// taken from the decoded text.
pub fn generate_chromosomes(
    dnas: Vec<Vec<i32>>,
    generation: i32,
    ticker: &str,
    grammar: &Grammar,
) -> (out: Vec<Chromosome>)
    requires
        grammar.wf(),
        forall|i: int|
            0 <= i < dnas@.len() ==> dna_wf(#[trigger] dnas@[i]@) && dnas@[i]@.len() <= 4096,
    ensures
        out@.len() == dnas@.len(),
        forall|i: int|
            0 <= i < out@.len() ==> chrom_fresh(
                #[trigger] out@[i],
                dnas@[i]@,
                generation as int,
                ticker@,
                grammar.tks(),
                grammar.sts(),
            ),
{
    let mut out: Vec<Chromosome> = Vec::new();
    let mut idx: usize = 0;
    while idx < dnas.len()
        invariant
            idx <= dnas.len(),
            grammar.wf(),
            forall|i: int|
                0 <= i < dnas@.len() ==> dna_wf(#[trigger] dnas@[i]@) && dnas@[i]@.len() <= 4096,
            out@.len() == idx,
            forall|i: int|
                0 <= i < out@.len() ==> chrom_fresh(
                    #[trigger] out@[i],
                    dnas@[i]@,
                    generation as int,
                    ticker@,
                    grammar.tks(),
                    grammar.sts(),
                ),
        decreases dnas.len() - idx,
    {
        let dna = dnas[idx].clone();
        proof {
            assert(dna@ =~= dnas@[idx as int]@);
        }
        let strategies = decode_dna("<code>".to_owned(), &dna, grammar);
        let clauses = split_clauses(strategies.as_str());
        proof {
            lemma_decode_from_len(
                Seq::empty(),
                Tail::NeedCodeFirst,
                dna@,
                grammar.tks(),
                grammar.sts(),
            );
            lemma_split2_len_bound(strategies@, Seq::empty());
            assert(views(clauses@).len() == clauses@.len());
        }
        let chromosome_length = clauses.len() as i32;
        let chromosome = Chromosome {
            id: fresh_id(),
            target_ticker: ticker.to_owned(),
            chromosome: strategies,
            dna,
            generation,
            chromosome_length,
            kelly: Ratio::zero(),
            cum_pnl: 0,
            variance: Ratio::zero(),
            mean_return: Ratio::zero(),
            w_kelly: Ratio::zero(),
            num_of_trades: 0,
            winning_trades: 0,
            losing_trades: 0,
            percentage_winners: Ratio::zero(),
            rank: 0,
        };
        out.push(chromosome);
        idx = idx + 1;
    }
    out
}

} // verus!
