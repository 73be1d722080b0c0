//! Batching by a fixed number of grapheme clusters.
use unicode_segmentation::UnicodeSegmentation;
use vstd::arithmetic::div_mod::{lemma_fundamental_div_mod, lemma_fundamental_div_mod_converse};
use vstd::prelude::*;
use vstd::seq_lib::lemma_flatten_concat;
use vstd::string::StringExecFns;

use super::{batch_texts, string_texts, BatchingStrategy, ConfigError, TextBatch};

verus! {

/// The extended grapheme clusters of a text, in order.
pub uninterp spec fn grapheme_clusters(text: Seq<char>) -> Seq<Seq<char>>;

/// Relies on `UnicodeSegmentation::graphemes` with extended clusters: it moves
/// a cursor from the start of the text to its end and yields each slice from
/// the cursor to the next boundary, which lies at least one character further.
#[verifier::external_body]
fn graphemes_of(text: &str) -> (clusters: Vec<String>)
    ensures
        string_texts(clusters@) == grapheme_clusters(text@),
        string_texts(clusters@).flatten() == text@,
        forall|k: int| 0 <= k < clusters.len() ==> (#[trigger] clusters[k])@.len() > 0,
{
    text.graphemes(true).map(String::from).collect()
}

/// How many batches of at most `max_chars` units hold `units` units.
pub open spec fn batch_count(units: nat, max_chars: nat) -> nat
    recommends
        max_chars > 0,
{
    ((units + max_chars - 1) / (max_chars as int)) as nat
}

/// The batches made of `units`: batch `k` joins the units from `k * max_chars`
/// up to `k * max_chars + max_chars`, or to the end where fewer are left.
pub open spec fn unit_batches(units: Seq<Seq<char>>, max_chars: nat) -> Seq<Seq<char>>
    recommends
        max_chars > 0,
{
    Seq::new(
        batch_count(units.len(), max_chars),
        |k: int|
            {
                let lo = k * max_chars;
                let hi = if lo + max_chars < units.len() {
                    lo + max_chars
                } else {
                    units.len() as int
                };
                units.subrange(lo, hi).flatten()
            },
    )
}

proof fn lemma_batch_count_exact(q: nat, c: nat, m: nat)
    requires
        c < m,
    ensures
        batch_count(q * m + c, m) == if c == 0 {
            q
        } else {
            q + 1
        },
{
    if c == 0 {
        lemma_fundamental_div_mod_converse((q * m + m - 1) as int, m as int, q as int, m - 1);
    } else {
        assert((q + 1) * m == q * m + m) by (nonlinear_arith);
        lemma_fundamental_div_mod_converse(
            (q * m + c + m - 1) as int,
            m as int,
            (q + 1) as int,
            c - 1,
        );
    }
}

proof fn lemma_batch_count_bounds(n: nat, m: nat, k: nat)
    requires
        m > 0,
    ensures
        batch_count(n, m) * m >= n,
        k < batch_count(n, m) ==> k * m + m <= batch_count(n, m) * m,
        k < batch_count(n, m) ==> k * m < n,
{
    let c = batch_count(n, m) as int;
    let x = (n + m - 1) as int;
    lemma_fundamental_div_mod(x, m as int);
    assert(0 <= x % (m as int) < m);
    assert(m * c == c * m) by (nonlinear_arith);
    if k < c {
        assert(k * m + m <= c * m) by (nonlinear_arith)
            requires
                k + 1 <= c,
                m > 0,
        ;
    }
}

proof fn lemma_unit_batches_prefix(units: Seq<Seq<char>>, m: nat, j: nat)
    requires
        m > 0,
        j <= batch_count(units.len(), m),
    ensures
        unit_batches(units, m).take(j as int).flatten() == units.take(
            if j * m < units.len() {
                (j * m) as int
            } else {
                units.len() as int
            },
        ).flatten(),
    decreases j,
{
    let b = unit_batches(units, m);
    let n = units.len() as int;
    if j == 0 {
        assert(b.take(0) =~= Seq::<Seq<char>>::empty());
        assert(units.take(0) =~= Seq::<Seq<char>>::empty());
    } else {
        let i = (j - 1) as nat;
        lemma_unit_batches_prefix(units, m, i);
        lemma_batch_count_bounds(units.len(), m, i);
        assert(i * m + m == j * m) by (nonlinear_arith)
            requires
                i + 1 == j,
        ;
        let lo = (i * m) as int;
        let hi = if j * m < n {
            (j * m) as int
        } else {
            n
        };
        assert(b.take(j as int) =~= b.take(i as int).push(b[i as int]));
        b.take(i as int).lemma_flatten_push(b[i as int]);
        assert(units.take(hi) =~= units.take(lo) + units.subrange(lo, hi));
        lemma_flatten_concat(units.take(lo), units.subrange(lo, hi));
    }
}

/// Joining the batches made of `units` in order gives the units joined.
pub proof fn lemma_unit_batches_join(units: Seq<Seq<char>>, max_chars: nat)
    requires
        max_chars > 0,
    ensures
        unit_batches(units, max_chars).flatten() == units.flatten(),
{
    let b = unit_batches(units, max_chars);
    lemma_batch_count_bounds(units.len(), max_chars, 0);
    lemma_unit_batches_prefix(units, max_chars, b.len());
    assert(b.take(b.len() as int) =~= b);
    assert(units.take(units.len() as int) =~= units);
}

/// Every batch but the last joins exactly `max_chars` whole units; the last
/// joins the remaining one to `max_chars` units.
pub proof fn lemma_unit_batches_sizes(units: Seq<Seq<char>>, max_chars: nat, k: nat)
    requires
        max_chars > 0,
        k < batch_count(units.len(), max_chars),
    ensures
        k + 1 < batch_count(units.len(), max_chars) ==> unit_batches(units, max_chars)[k as int]
            == units.subrange((k * max_chars) as int, (k * max_chars + max_chars) as int).flatten(),
        k + 1 == batch_count(units.len(), max_chars) ==> {
            &&& 0 < units.len() - k * max_chars <= max_chars
            &&& unit_batches(units, max_chars)[k as int] == units.subrange(
                (k * max_chars) as int,
                units.len() as int,
            ).flatten()
        },
{
    lemma_batch_count_bounds(units.len(), max_chars, k);
    assert((k + 1) * max_chars == k * max_chars + max_chars) by (nonlinear_arith);
    if k + 1 < batch_count(units.len(), max_chars) {
        lemma_batch_count_bounds(units.len(), max_chars, k + 1);
    }
}

/// Where no unit is empty, no batch made of them is empty.
pub proof fn lemma_unit_batches_nonempty(units: Seq<Seq<char>>, max_chars: nat)
    requires
        max_chars > 0,
        forall|i: int| 0 <= i < units.len() ==> (#[trigger] units[i]).len() > 0,
    ensures
        forall|k: int|
            0 <= k < unit_batches(units, max_chars).len() ==> (#[trigger] unit_batches(
                units,
                max_chars,
            )[k]).len() > 0,
{
    let b = unit_batches(units, max_chars);
    assert forall|k: int| 0 <= k < b.len() implies (#[trigger] b[k]).len() > 0 by {
        lemma_batch_count_bounds(units.len(), max_chars, k as nat);
        let lo = k * max_chars;
        let hi = if lo + max_chars < units.len() {
            lo + max_chars
        } else {
            units.len() as int
        };
        let part = units.subrange(lo, hi);
        assert(part.len() > 0);
        assert(part =~= seq![part[0]] + part.drop_first());
        lemma_flatten_concat(seq![part[0]], part.drop_first());
        assert(seq![part[0]].flatten() == part[0]);
        assert(part[0] == units[lo]);
    }
}

/// Splits text into batches of `max_chars` grapheme clusters each, the last
/// batch holding what is left.
///
/// A grapheme cluster is one user-perceived character (a base character with
/// its combining marks), so no batch boundary falls inside one.
#[derive(Debug, Clone, Copy)]
pub struct CharCountBatcher {
    max_chars: usize,
}

impl CharCountBatcher {
    #[verifier::type_invariant]
    spec fn well_formed(&self) -> bool {
        self.max_chars > 0
    }

    /// The most grapheme clusters that one batch holds.
    pub closed spec fn max_units(&self) -> nat {
        self.max_chars as nat
    }

    /// A batcher whose batches hold at most `max_chars` grapheme clusters; a
    /// size of zero is refused.
    pub fn new(max_chars: usize) -> (r: Result<Self, ConfigError>)
        ensures
            max_chars == 0 ==> r == Err::<Self, ConfigError>(ConfigError::ZeroMaxChars),
            max_chars > 0 ==> (r matches Ok(b) && b.max_units() == max_chars),
    {
        if max_chars == 0 {
            Err(ConfigError::ZeroMaxChars)
        } else {
            Ok(Self { max_chars })
        }
    }

    /// The most grapheme clusters that one batch holds; never zero.
    pub fn max_chars(&self) -> (r: usize)
        ensures
            r == self.max_units(),
            r > 0,
    {
        proof {
            use_type_invariant(self);
        }
        self.max_chars
    }

    /// Groups `graphemes`, in order, into batches of `max_chars` of them, the
    /// last batch taking what is left.
    pub fn batch_graphemes(&self, graphemes: &Vec<String>) -> (batches: Vec<TextBatch>)
        ensures
            batch_texts(batches@) == unit_batches(string_texts(graphemes@), self.max_units()),
    {
        proof {
            use_type_invariant(self);
        }
        let ghost units = string_texts(graphemes@);
        let ghost n = graphemes.len() as int;
        let m = self.max_chars;
        let mut batches: Vec<TextBatch> = Vec::new();
        let mut current = String::new();
        let mut count: usize = 0;
        let mut i: usize = 0;
        let ghost mut start: int = 0;
        proof {
            assert(units.subrange(0, 0) =~= Seq::<Seq<char>>::empty());
            assert(0 * m == 0);
        }
        while i < graphemes.len()
            invariant
                m == self.max_units(),
                m > 0,
                units == string_texts(graphemes@),
                n == graphemes.len(),
                i <= n,
                count < m,
                start == batches.len() * m,
                start + count == i,
                current@ == units.subrange(start, i as int).flatten(),
                forall|k: int|
                    0 <= k < batches.len() ==> (#[trigger] batches[k]).content@ == units.subrange(
                        k * m,
                        k * m + m,
                    ).flatten(),
            decreases n - i,
        {
            current.append(graphemes[i].as_str());
            proof {
                assert(units.subrange(start, i + 1) =~= units.subrange(start, i as int).push(
                    units[i as int],
                ));
                units.subrange(start, i as int).lemma_flatten_push(units[i as int]);
            }
            count = count + 1;
            i = i + 1;
            if count == m {
                let ghost q = batches.len();
                batches.push(TextBatch { content: current });
                current = String::new();
                count = 0;
                proof {
                    assert((q + 1) * m == q * m + m) by (nonlinear_arith);
                    start = i as int;
                    assert(units.subrange(start, start) =~= Seq::<Seq<char>>::empty());
                }
            }
        }
        let ghost q = batches.len();
        if count > 0 {
            batches.push(TextBatch { content: current });
        }
        proof {
            lemma_batch_count_exact(q as nat, count as nat, m as nat);
            let b = unit_batches(units, m as nat);
            assert forall|k: int| 0 <= k < batches.len() implies batch_texts(batches@)[k] == b[k] by {
                if k < q {
                    assert(k * m + m <= q * m) by (nonlinear_arith)
                        requires
                            k + 1 <= q,
                    ;
                }
            }
            assert(batch_texts(batches@) =~= b);
        }
        batches
    }
}

impl BatchingStrategy for CharCountBatcher {
    fn create_batches(&self, text: &str) -> (batches: Vec<TextBatch>)
        ensures
            batch_texts(batches@) == unit_batches(grapheme_clusters(text@), self.max_units()),
            batches.len() == batch_count(grapheme_clusters(text@).len(), self.max_units()),
    {
        proof {
            use_type_invariant(self);
        }
        let graphemes = graphemes_of(text);
        let batches = self.batch_graphemes(&graphemes);
        proof {
            let units = string_texts(graphemes@);
            lemma_unit_batches_join(units, self.max_units());
            lemma_unit_batches_nonempty(units, self.max_units());
            assert forall|k: int| 0 <= k < batches.len() implies (#[trigger] batches[k]).content@.len()
                > 0 by {
                assert(batch_texts(batches@)[k] == batches[k].content@);
            }
            if text@.len() == 0 {
                if units.len() > 0 {
                    lemma_batch_count_bounds(units.len(), self.max_units(), 0);
                    units.lemma_flatten_length_ge_single_element_length(0);
                    units.lemma_flatten_and_flatten_alt_are_equivalent();
                }
                assert(batch_count(0, self.max_units()) == 0);
            }
        }
        batches
    }
}

} // verus!
