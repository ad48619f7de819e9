//! The line that reports on a generation.
use crate::scenarios::board_games::HALL_OF_FAME_MAX;
use crate::text::{decimal, push_decimal};
use vstd::prelude::*;
use vstd::string::StringExecFns;

verus! {

/// How many members the species have in all.
pub open spec fn headcount(sizes: Seq<usize>) -> nat
    decreases sizes.len(),
{
    if sizes.len() == 0 {
        0
    } else {
        headcount(sizes.drop_last()) + sizes.last() as nat
    }
}

/// The larger of `total` and one.
pub open spec fn at_least_one(total: nat) -> nat {
    if total == 0 {
        1
    } else {
        total
    }
}

/// The percentage that `n` is of `total`, rounded down.
pub open spec fn share(n: usize, total: nat) -> nat {
    n as nat * 100 / at_least_one(total)
}

/// The whole percentages that the species which are not empty have of `total`,
/// joined by commas.
pub open spec fn shares_text(sizes: Seq<usize>, total: nat) -> Seq<char>
    decreases sizes.len(),
{
    if sizes.len() == 0 {
        Seq::empty()
    } else {
        let before = shares_text(sizes.drop_last(), total);
        if sizes.last() == 0 {
            before
        } else {
            (if before.len() == 0 {
                before
            } else {
                before + ", "@
            }) + decimal(share(sizes.last(), total)).push('%')
        }
    }
}

/// The size of the hall of fame and its capacity, where there is one.
pub open spec fn hall_text(hall: Option<usize>) -> Seq<char> {
    match hall {
        Some(h) => "  hall "@ + decimal(h as nat) + "/"@ + decimal(HALL_OF_FAME_MAX as nat),
        None => Seq::empty(),
    }
}

/// How many generations brought no improvement, where that is known and not zero.
pub open spec fn stale_text(stale: Option<usize>) -> Seq<char> {
    match stale {
        Some(s) => if s > 0 {
            "  stale: "@ + decimal(s as nat)
        } else {
            Seq::empty()
        },
        None => Seq::empty(),
    }
}

/// The report on a generation.
pub open spec fn report_text(
    generation: nat,
    fittest: Seq<char>,
    sizes: Seq<usize>,
    hall: Option<usize>,
    stale: Option<usize>,
) -> Seq<char> {
    "gen "@ + decimal(generation) + " best: "@ + fittest + "  species: "@ + decimal(sizes.len())
        + "  ["@ + shares_text(sizes, headcount(sizes)) + "]"@ + hall_text(hall) + stale_text(
        stale,
    )
}

/// A prefix of the species has no more members than all of them.
proof fn lemma_headcount_prefix(sizes: Seq<usize>, n: int)
    requires
        0 <= n <= sizes.len(),
    ensures
        headcount(sizes.take(n)) <= headcount(sizes),
    decreases sizes.len(),
{
    if n == sizes.len() {
        assert(sizes.take(n) =~= sizes);
    } else {
        lemma_headcount_prefix(sizes.drop_last(), n);
        assert(sizes.drop_last().take(n) =~= sizes.take(n));
    }
}

/// Reports on a generation: its number, the best fitness as the caller wrote it, how
/// many species there are and their shares, the hall of fame and how long there has
/// been no improvement.
pub fn report_generation(
    generation: usize,
    fittest: &str,
    species_sizes: &[usize],
    hall: Option<usize>,
    stale: Option<usize>,
) -> (out: String)
    requires
        headcount(species_sizes@) <= usize::MAX,
        forall|i: int|
            0 <= i < species_sizes@.len() ==> #[trigger] species_sizes@[i] * 100 <= usize::MAX,
    ensures
        out@ == report_text(generation as nat, fittest@, species_sizes@, hall, stale),
{
    let mut total: usize = 0;
    for i in 0..species_sizes.len()
        invariant
            headcount(species_sizes@) <= usize::MAX,
            total == headcount(species_sizes@.take(i as int)),
    {
        proof {
            assert(species_sizes@.take(i + 1).drop_last() =~= species_sizes@.take(i as int));
            lemma_headcount_prefix(species_sizes@, i + 1);
        }
        total = total + species_sizes[i];
    }
    assert(species_sizes@.take(species_sizes@.len() as int) =~= species_sizes@);
    let whole: usize = if total == 0 {
        1
    } else {
        total
    };
    let mut out = String::new();
    out.append("gen ");
    push_decimal(&mut out, generation as u64);
    out.append(" best: ");
    out.append(fittest);
    out.append("  species: ");
    push_decimal(&mut out, species_sizes.len() as u64);
    out.append("  [");
    let ghost head = out@;
    let mut first = true;
    for i in 0..species_sizes.len()
        invariant
            total == headcount(species_sizes@),
            whole == at_least_one(total as nat),
            forall|i: int|
                0 <= i < species_sizes@.len() ==> #[trigger] species_sizes@[i] * 100 <= usize::MAX,
            first == (shares_text(species_sizes@.take(i as int), total as nat).len() == 0),
            out@ == head + shares_text(species_sizes@.take(i as int), total as nat),
    {
        let n: usize = species_sizes[i];
        assert(species_sizes@.take(i + 1).drop_last() =~= species_sizes@.take(i as int));
        if n != 0 {
            let ghost before = out@;
            if !first {
                out.append(", ");
            }
            first = false;
            push_decimal(&mut out, (n * 100 / whole) as u64);
            out.push('%');
            assert(out@ =~= head + shares_text(species_sizes@.take(i + 1), total as nat));
        }
    }
    assert(species_sizes@.take(species_sizes@.len() as int) =~= species_sizes@);
    out.append("]");
    let ghost body = out@;
    if let Some(h) = hall {
        out.append("  hall ");
        push_decimal(&mut out, h as u64);
        out.append("/");
        push_decimal(&mut out, HALL_OF_FAME_MAX as u64);
    }
    assert(out@ =~= body + hall_text(hall));
    if let Some(s) = stale {
        if s > 0 {
            out.append("  stale: ");
            push_decimal(&mut out, s as u64);
        }
    }
    assert(out@ =~= body + hall_text(hall) + stale_text(stale));
    assert(out@ =~= report_text(generation as nat, fittest@, species_sizes@, hall, stale));
    out
}

/// The percentages of the species, added up.
pub open spec fn shares_sum(sizes: Seq<usize>, total: nat) -> nat
    decreases sizes.len(),
{
    if sizes.len() == 0 {
        0
    } else {
        shares_sum(sizes.drop_last(), total) + share(sizes.last(), total)
    }
}

/// What the species have of a `total` that is not zero, added up, is no more than their
/// headcount has of it.
proof fn lemma_shares_sum(sizes: Seq<usize>, total: nat)
    requires
        total > 0,
    ensures
        shares_sum(sizes, total) * total <= headcount(sizes) * 100,
    decreases sizes.len(),
{
    if sizes.len() > 0 {
        lemma_shares_sum(sizes.drop_last(), total);
        let earlier = shares_sum(sizes.drop_last(), total);
        let n = sizes.last() as nat;
        let part = share(sizes.last(), total);
        assert(part * total <= n * 100) by (nonlinear_arith)
            requires
                part == n * 100 / total,
                total > 0,
        ;
        assert((earlier + part) * total == earlier * total + part * total) by (nonlinear_arith);
    } else {
        assert(0 * total == 0);
    }
}

/// The shares that a report lists add up to no more than a hundred percent.
pub proof fn shares_fit_in_the_whole(sizes: Seq<usize>)
    ensures
        shares_sum(sizes, headcount(sizes)) <= 100,
{
    let total = headcount(sizes);
    let sum = shares_sum(sizes, total);
    if total > 0 {
        lemma_shares_sum(sizes, total);
        assert(sum <= 100) by (nonlinear_arith)
            requires
                sum * total <= total * 100,
                total > 0,
        ;
    } else {
        lemma_empty_shares(sizes);
    }
}

/// Species without members have no share.
proof fn lemma_empty_shares(sizes: Seq<usize>)
    requires
        headcount(sizes) == 0,
    ensures
        shares_sum(sizes, 0) == 0,
    decreases sizes.len(),
{
    if sizes.len() > 0 {
        lemma_empty_shares(sizes.drop_last());
    }
}

/// A share is the greatest whole percentage that the species really has. Where there are no
/// members at all, a species counts as a hundred percent for each of its own.
pub proof fn shares_are_rounded_down(n: usize, total: nat)
    ensures
        total > 0 ==> share(n, total) * total <= n * 100 < (share(n, total) + 1) * total,
        total == 0 ==> share(n, total) == n * 100,
{
    if total > 0 {
        let whole = n as int * 100;
        let t = total as int;
        assert((whole / t) * t <= whole < (whole / t + 1) * t) by (nonlinear_arith)
            requires
                t > 0,
                whole >= 0,
        ;
    }
}

/// The headcount adds up, species by species.
pub proof fn heads_add_up(a: Seq<usize>, b: Seq<usize>)
    ensures
        headcount(a + b) == headcount(a) + headcount(b),
        b.len() == 1 ==> headcount(b) == b[0],
        headcount(Seq::<usize>::empty()) == 0,
    decreases b.len(),
{
    reveal_with_fuel(headcount, 2);
    if b.len() > 0 {
        heads_add_up(a, b.drop_last());
        assert((a + b).drop_last() =~= a + b.drop_last());
        assert((a + b).last() == b.last());
        if b.len() == 1 {
            assert(b.drop_last() =~= Seq::empty());
        }
    } else {
        assert(a + b =~= a);
    }
}

/// Where there are no members in a species, it leaves no trace among the shares; another
/// one adds its percentage, after a comma and a blank unless it is the first.
pub proof fn shares_are_listed(sizes: Seq<usize>, n: usize, total: nat)
    ensures
        shares_text(Seq::empty(), total) == Seq::<char>::empty(),
        n == 0 ==> shares_text(sizes.push(n), total) == shares_text(sizes, total),
        n > 0 ==> shares_text(sizes.push(n), total) == (if forall|i: int|
            0 <= i < sizes.len() ==> sizes[i] == 0 {
            Seq::empty()
        } else {
            shares_text(sizes, total) + seq![',', ' ']
        }) + decimal(share(n, total)) + seq!['%'],
{
    reveal_strlit(", ");
    assert(", "@ =~= seq![',', ' ']);
    assert(sizes.push(n).drop_last() =~= sizes);
    lemma_shares_start(sizes, total);
    if n > 0 {
        assert(shares_text(sizes.push(n), total) =~= (if forall|i: int|
            0 <= i < sizes.len() ==> sizes[i] == 0 {
            Seq::empty()
        } else {
            shares_text(sizes, total) + seq![',', ' ']
        }) + decimal(share(n, total)) + seq!['%']);
    }
}

/// Nothing is listed exactly where no species has members.
proof fn lemma_shares_start(sizes: Seq<usize>, total: nat)
    ensures
        shares_text(sizes, total).len() == 0 <==> forall|i: int|
            0 <= i < sizes.len() ==> sizes[i] == 0,
    decreases sizes.len(),
{
    if sizes.len() > 0 {
        let before = sizes.drop_last();
        lemma_shares_start(before, total);
        assert(sizes.last() == sizes[sizes.len() - 1]);
        if sizes.last() == 0 {
            if forall|i: int| 0 <= i < before.len() ==> before[i] == 0 {
                assert forall|i: int| 0 <= i < sizes.len() implies sizes[i] == 0 by {
                    if i < before.len() {
                        assert(before[i] == 0);
                    }
                }
            } else {
                let i = choose|i: int| 0 <= i < before.len() && before[i] != 0;
                assert(sizes[i] != 0);
            }
        }
    }
}

/// A report names the generation, the best fitness, the number of species and their shares;
/// the hall of fame and the stale generations follow only where there is something to say.
pub proof fn reports_end_with_what_there_is(
    generation: nat,
    fittest: Seq<char>,
    sizes: Seq<usize>,
    hall: usize,
    stale: usize,
)
    ensures
        ({
            let plain = report_text(generation, fittest, sizes, None, None);
            let hall_part = "  hall "@ + decimal(hall as nat) + seq!['/', '6', '4'];
            let stale_part = "  stale: "@ + decimal(stale as nat);
            &&& plain == "gen "@ + decimal(generation) + " best: "@ + fittest + "  species: "@
                + decimal(sizes.len()) + "  ["@ + shares_text(sizes, headcount(sizes)) + "]"@
            &&& report_text(generation, fittest, sizes, Some(hall), None) == plain + hall_part
            &&& report_text(generation, fittest, sizes, None, Some(0)) == plain
            &&& report_text(generation, fittest, sizes, Some(hall), Some(0)) == plain + hall_part
            &&& stale > 0 ==> {
                &&& report_text(generation, fittest, sizes, None, Some(stale)) == plain
                    + stale_part
                &&& report_text(generation, fittest, sizes, Some(hall), Some(stale)) == plain
                    + hall_part + stale_part
            }
        }),
{
    reveal_strlit("/");
    reveal_with_fuel(decimal, 3);
    assert("/"@ + decimal(64) =~= seq!['/', '6', '4']);
    let plain = report_text(generation, fittest, sizes, None, None);
    let hall_part = "  hall "@ + decimal(hall as nat) + seq!['/', '6', '4'];
    assert(hall_text(Some(hall)) =~= hall_part);
    assert(plain =~= "gen "@ + decimal(generation) + " best: "@ + fittest + "  species: "@
        + decimal(sizes.len()) + "  ["@ + shares_text(sizes, headcount(sizes)) + "]"@);
    assert(report_text(generation, fittest, sizes, Some(hall), None) =~= plain + hall_part);
    assert(report_text(generation, fittest, sizes, None, Some(0)) =~= plain);
    assert(report_text(generation, fittest, sizes, Some(hall), Some(0)) =~= plain + hall_part);
    if stale > 0 {
        let stale_part = "  stale: "@ + decimal(stale as nat);
        assert(report_text(generation, fittest, sizes, None, Some(stale)) =~= plain + stale_part);
        assert(report_text(generation, fittest, sizes, Some(hall), Some(stale)) =~= plain
            + hall_part + stale_part);
    }
}

} // verus!
