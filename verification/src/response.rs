//! The answers to scoring requests.
use vstd::prelude::*;

verus! {

/// The largest fraud count that has an answer of its own.
pub const MAX_COUNT: usize = 5;

/// A transaction with fewer frauds than this among its neighbours is approved.
pub const DENY_FROM: usize = 3;

/// The fraud count that an answer speaks of: larger ones count as the largest.
pub open spec fn counted(fraud_count: nat) -> nat {
    if fraud_count < MAX_COUNT {
        fraud_count
    } else {
        MAX_COUNT as nat
    }
}

/// Whether a transaction with this many frauds among its neighbours is approved.
pub open spec fn is_approved(fraud_count: nat) -> bool {
    fraud_count < DENY_FROM
}

/// A decimal digit as a character.
pub open spec fn digit_char(d: nat) -> char {
    (0x30 + d) as char
}

/// The score, the share of frauds among five neighbours, with one decimal.
pub open spec fn score_text(fraud_count: nat) -> Seq<char> {
    let tenths = 2 * counted(fraud_count);
    seq![digit_char(tenths / 10), '.', digit_char(tenths % 10)]
}

/// The answer as JSON text.
pub open spec fn response_text(fraud_count: nat) -> Seq<char> {
    "{\"approved\":"@ + (if is_approved(fraud_count) {
        "true"@
    } else {
        "false"@
    }) + ",\"fraud_score\":"@ + score_text(fraud_count) + "}"@
}

/// The answer for a fraud count.
pub fn response(fraud_count: usize) -> (r: &'static str)
    ensures
        r@ == response_text(fraud_count as nat),
{
    proof {
        reveal_strlit("{\"approved\":");
        reveal_strlit("true");
        reveal_strlit("false");
        reveal_strlit(",\"fraud_score\":");
        reveal_strlit("}");
    }
    if fraud_count == 0 {
        proof {
            reveal_strlit("{\"approved\":true,\"fraud_score\":0.0}");
        }
        let r: &'static str = "{\"approved\":true,\"fraud_score\":0.0}";
        assert(r@ =~= response_text(0));
        r
    } else if fraud_count == 1 {
        proof {
            reveal_strlit("{\"approved\":true,\"fraud_score\":0.2}");
        }
        let r: &'static str = "{\"approved\":true,\"fraud_score\":0.2}";
        assert(r@ =~= response_text(1));
        r
    } else if fraud_count == 2 {
        proof {
            reveal_strlit("{\"approved\":true,\"fraud_score\":0.4}");
        }
        let r: &'static str = "{\"approved\":true,\"fraud_score\":0.4}";
        assert(r@ =~= response_text(2));
        r
    } else if fraud_count == 3 {
        proof {
            reveal_strlit("{\"approved\":false,\"fraud_score\":0.6}");
        }
        let r: &'static str = "{\"approved\":false,\"fraud_score\":0.6}";
        assert(r@ =~= response_text(3));
        r
    } else if fraud_count == 4 {
        proof {
            reveal_strlit("{\"approved\":false,\"fraud_score\":0.8}");
        }
        let r: &'static str = "{\"approved\":false,\"fraud_score\":0.8}";
        assert(r@ =~= response_text(4));
        r
    } else {
        proof {
            reveal_strlit("{\"approved\":false,\"fraud_score\":1.0}");
        }
        let r: &'static str = "{\"approved\":false,\"fraud_score\":1.0}";
        assert(r@ =~= response_text(fraud_count as nat));
        r
    }
}

/// The answer to a request that cannot be read: it is approved, since a wrong
/// approval costs less than an error.
pub fn malformed_response() -> (r: &'static str)
    ensures
        r@ == response_text(0),
{
    response(0)
}

/// More frauds never turn a denial into an approval, and lower no score.
pub proof fn more_frauds_never_approve(fewer: nat, more: nat)
    requires
        fewer <= more,
    ensures
        is_approved(more) ==> is_approved(fewer),
        counted(fewer) <= counted(more),
{
}

proof fn lemma_response_shape(fraud_count: nat)
    ensures
        response_text(fraud_count).len() == if is_approved(fraud_count) {
            35int
        } else {
            36int
        },
        is_approved(fraud_count) ==> response_text(fraud_count)[31] == score_text(fraud_count)[0]
            && response_text(fraud_count)[33] == score_text(fraud_count)[2],
        !is_approved(fraud_count) ==> response_text(fraud_count)[32] == score_text(fraud_count)[0]
            && response_text(fraud_count)[34] == score_text(fraud_count)[2],
{
    reveal_strlit("{\"approved\":");
    reveal_strlit("true");
    reveal_strlit("false");
    reveal_strlit(",\"fraud_score\":");
    reveal_strlit("}");
}

/// The answer tells the fraud count, up to five.
pub proof fn response_tells_the_count(a: nat, b: nat)
    requires
        response_text(a) == response_text(b),
    ensures
        counted(a) == counted(b),
        is_approved(a) == is_approved(b),
{
    lemma_response_shape(a);
    lemma_response_shape(b);
}

/// A score of 0.6 or more goes with a denial, a lower one with an approval.
pub proof fn approval_goes_with_the_score(fraud_count: nat)
    ensures
        is_approved(fraud_count) <==> 2 * counted(fraud_count) < 6,
{
}

/// The answer to every count: approved with the score of up to two frauds, denied
/// with that of three and four, and denied with 1.0 from five on.
pub proof fn answer_to_every_count(n: nat)
    ensures
        n == 0 ==> response_text(n) == "{\"approved\":true,\"fraud_score\":0.0}"@,
        n == 1 ==> response_text(n) == "{\"approved\":true,\"fraud_score\":0.2}"@,
        n == 2 ==> response_text(n) == "{\"approved\":true,\"fraud_score\":0.4}"@,
        n == 3 ==> response_text(n) == "{\"approved\":false,\"fraud_score\":0.6}"@,
        n == 4 ==> response_text(n) == "{\"approved\":false,\"fraud_score\":0.8}"@,
        n >= 5 ==> response_text(n) == "{\"approved\":false,\"fraud_score\":1.0}"@,
        is_approved(n) <==> n < 3,
        n <= 5 ==> counted(n) == n,
        n > 5 ==> counted(n) == 5,
{
    reveal_strlit("{\"approved\":");
    reveal_strlit("true");
    reveal_strlit("false");
    reveal_strlit(",\"fraud_score\":");
    reveal_strlit("}");
    if n == 0 {
        reveal_strlit("{\"approved\":true,\"fraud_score\":0.0}");
        assert(response_text(n) =~= "{\"approved\":true,\"fraud_score\":0.0}"@);
    } else if n == 1 {
        reveal_strlit("{\"approved\":true,\"fraud_score\":0.2}");
        assert(response_text(n) =~= "{\"approved\":true,\"fraud_score\":0.2}"@);
    } else if n == 2 {
        reveal_strlit("{\"approved\":true,\"fraud_score\":0.4}");
        assert(response_text(n) =~= "{\"approved\":true,\"fraud_score\":0.4}"@);
    } else if n == 3 {
        reveal_strlit("{\"approved\":false,\"fraud_score\":0.6}");
        assert(response_text(n) =~= "{\"approved\":false,\"fraud_score\":0.6}"@);
    } else if n == 4 {
        reveal_strlit("{\"approved\":false,\"fraud_score\":0.8}");
        assert(response_text(n) =~= "{\"approved\":false,\"fraud_score\":0.8}"@);
    } else {
        reveal_strlit("{\"approved\":false,\"fraud_score\":1.0}");
        assert(response_text(n) =~= "{\"approved\":false,\"fraud_score\":1.0}"@);
    }
}

} // verus!
