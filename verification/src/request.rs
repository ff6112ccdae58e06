//! Scoring requests, and the query vector that is made of them.
//!
//! The floats of a request are kept as bit patterns: 64 bits as they came, and 32
//! bits where they have been scaled.
use vstd::prelude::*;
use vstd::string::StringSliceAdditionalSpecFns;
use crate::calendar::parse_datetime;
use crate::float_bits::{clamp01, positive_wide, MINUS_ONE, ONE, ZERO};
use crate::mcc::RiskTable;
use crate::text::same_text;

verus! {

/// A scoring request.
pub struct RequestPayload<'a> {
    pub id: &'a str,
    pub transaction: Transaction<'a>,
    pub customer: Customer<'a>,
    pub merchant: Merchant<'a>,
    pub terminal: Terminal,
    pub last_transaction: Option<LastTransaction<'a>>,
}

/// The transaction to score.
pub struct Transaction<'a> {
    pub amount: u64,
    pub installments: u64,
    pub requested_at: &'a str,
}

/// The customer, and the merchants that the customer has paid before.
pub struct Customer<'a> {
    pub avg_amount: u64,
    pub tx_count_24h: u64,
    pub known_merchants: Vec<&'a str>,
}

/// The merchant to be paid.
pub struct Merchant<'a> {
    pub id: &'a str,
    pub mcc: &'a str,
    pub avg_amount: u64,
}

/// The terminal in use.
pub struct Terminal {
    pub is_online: bool,
    pub card_present: bool,
    pub km_from_home: u64,
}

/// The customer's transaction before this one.
pub struct LastTransaction<'a> {
    pub timestamp: &'a str,
    pub km_from_current: u64,
}

/// What a request says once its texts have been read.
#[derive(Clone, Copy, Debug, PartialEq, Eq, Structural)]
pub struct Facts {
    /// The hour of the transaction.
    pub hour: u8,
    /// The weekday of the transaction; Monday is 0.
    pub weekday: u8,
    /// The seconds since the customer's last transaction, if there was one.
    pub elapsed_seconds: Option<i64>,
    /// Whether the customer has paid this merchant before.
    pub known_merchant: bool,
    /// The risk of the merchant's category.
    pub risk: u32,
}

/// The scaled numbers of a request, not yet clamped.
#[derive(Clone, Copy, Debug, PartialEq, Eq, Structural)]
pub struct Ratios {
    pub amount: u32,
    pub installments: u32,
    /// The amount against the customer's average; read if the average is positive.
    pub amount_vs_avg: u32,
    pub hour: u32,
    pub weekday: u32,
    /// The time since the last transaction; read if there was one.
    pub minutes: u32,
    /// The way from the last transaction; read if there was one.
    pub km_from_last: u32,
    pub km_from_home: u32,
    pub tx_count: u32,
    pub merchant_avg: u32,
}

/// The seconds between the last transaction and this one.
pub open spec fn elapsed(payload: &RequestPayload) -> Option<i64> {
    match payload.last_transaction {
        Some(last) => Some(
            (crate::calendar::timestamp_epoch(payload.transaction.requested_at.spec_bytes())
                - crate::calendar::timestamp_epoch(last.timestamp.spec_bytes())) as i64,
        ),
        None => None,
    }
}

/// Whether the merchant is among those that the customer has paid before.
pub open spec fn is_known(payload: &RequestPayload) -> bool {
    exists|i: int|
        0 <= i < payload.customer.known_merchants@.len() && (
        #[trigger] payload.customer.known_merchants@[i])@ == payload.merchant.id@
}

/// What a request says, with the risks of a table.
pub open spec fn facts_of(payload: &RequestPayload, risks: Seq<u32>) -> Facts {
    let requested_at = payload.transaction.requested_at.spec_bytes();
    let mcc = crate::mcc::mcc_of(payload.merchant.mcc.spec_bytes());
    Facts {
        hour: crate::calendar::timestamp_hour(requested_at) as u8,
        weekday: crate::calendar::timestamp_weekday(requested_at) as u8,
        elapsed_seconds: elapsed(payload),
        known_merchant: is_known(payload),
        risk: if mcc < crate::mcc::RISK_SLOTS {
            risks[mcc as int]
        } else {
            crate::mcc::DEFAULT_RISK
        },
    }
}

/// Whether the merchant is among those that the customer has paid before.
pub fn merchant_is_known(payload: &RequestPayload) -> (r: bool)
    ensures
        r == is_known(payload),
{
    let known: &Vec<&str> = &payload.customer.known_merchants;
    let mut i: usize = 0;
    while i < known.len()
        invariant
            i <= known@.len(),
            known == &payload.customer.known_merchants,
            forall|j: int| 0 <= j < i ==> (#[trigger] known@[j])@ != payload.merchant.id@,
        decreases known@.len() - i,
    {
        if same_text(known[i], payload.merchant.id) {
            assert(payload.customer.known_merchants@[i as int]@ == payload.merchant.id@);
            return true;
        }
        i += 1;
    }
    false
}

/// Reads the texts of a request.
pub fn read_facts(payload: &RequestPayload, risks: &RiskTable) -> (r: Facts)
    ensures
        r == facts_of(payload, risks@),
{
    let (req_epoch, hour, weekday) = parse_datetime(payload.transaction.requested_at);
    let elapsed_seconds: Option<i64> = match &payload.last_transaction {
        Some(last) => {
            let last_epoch: i64 = parse_datetime(last.timestamp).0;
            proof {
                crate::calendar::epochs_are_bounded(payload.transaction.requested_at.spec_bytes());
                crate::calendar::epochs_are_bounded(last.timestamp.spec_bytes());
            }
            Some(req_epoch - last_epoch)
        },
        None => None,
    };
    Facts {
        hour,
        weekday,
        elapsed_seconds,
        known_merchant: merchant_is_known(payload),
        risk: risks.risk(payload.merchant.mcc),
    }
}

/// The bit pattern of a yes or no: 1.0 or 0.0.
pub open spec fn flag(b: bool) -> u32 {
    if b {
        ONE
    } else {
        ZERO
    }
}

/// The sixteen features of a request, in the order of the index. Both features of
/// the last transaction are -1.0 where there was none, a customer without a
/// positive average counts as spending far above it, and the last two lanes are
/// unused.
pub open spec fn features(payload: &RequestPayload, facts: Facts, ratios: Ratios) -> Seq<u32> {
    seq![
        crate::float_bits::clamped(ratios.amount),
        crate::float_bits::clamped(ratios.installments),
        if crate::float_bits::is_positive_wide(payload.customer.avg_amount) {
            crate::float_bits::clamped(ratios.amount_vs_avg)
        } else {
            ONE
        },
        ratios.hour,
        ratios.weekday,
        if payload.last_transaction is Some {
            crate::float_bits::clamped(ratios.minutes)
        } else {
            MINUS_ONE
        },
        if payload.last_transaction is Some {
            crate::float_bits::clamped(ratios.km_from_last)
        } else {
            MINUS_ONE
        },
        crate::float_bits::clamped(ratios.km_from_home),
        crate::float_bits::clamped(ratios.tx_count),
        flag(payload.terminal.is_online),
        flag(payload.terminal.card_present),
        flag(!facts.known_merchant),
        facts.risk,
        crate::float_bits::clamped(ratios.merchant_avg),
        ZERO,
        ZERO,
    ]
}

/// Makes the query vector of a request.
pub fn query_vector(payload: &RequestPayload, facts: Facts, ratios: Ratios) -> (q: [u32; 16])
    ensures
        q@ == features(payload, facts, ratios),
{
    let mut q: [u32; 16] = [ZERO; 16];
    q[0] = clamp01(ratios.amount);
    q[1] = clamp01(ratios.installments);
    q[2] = if positive_wide(payload.customer.avg_amount) {
        clamp01(ratios.amount_vs_avg)
    } else {
        ONE
    };
    q[3] = ratios.hour;
    q[4] = ratios.weekday;
    match &payload.last_transaction {
        Some(_) => {
            q[5] = clamp01(ratios.minutes);
            q[6] = clamp01(ratios.km_from_last);
        },
        None => {
            q[5] = MINUS_ONE;
            q[6] = MINUS_ONE;
        },
    }
    q[7] = clamp01(ratios.km_from_home);
    q[8] = clamp01(ratios.tx_count);
    q[9] = if payload.terminal.is_online {
        ONE
    } else {
        ZERO
    };
    q[10] = if payload.terminal.card_present {
        ONE
    } else {
        ZERO
    };
    q[11] = if facts.known_merchant {
        ZERO
    } else {
        ONE
    };
    q[12] = facts.risk;
    q[13] = clamp01(ratios.merchant_avg);
    q[14] = ZERO;
    q[15] = ZERO;
    assert(q@ =~= features(payload, facts, ratios));
    q
}

/// The features of the last transaction are -1.0 exactly where there was none.
pub proof fn missing_last_transaction_shows(
    payload: &RequestPayload,
    facts: Facts,
    ratios: Ratios,
)
    ensures
        payload.last_transaction is None <==> features(payload, facts, ratios)[5] == MINUS_ONE,
        payload.last_transaction is None <==> features(payload, facts, ratios)[6] == MINUS_ONE,
{
}

/// Whether two requests have the same texts and flags, the same presence of a last
/// transaction, and averages of which both or neither are positive. Their other
/// numbers may differ.
pub open spec fn same_but_for_numbers(p1: &RequestPayload, p2: &RequestPayload) -> bool {
    &&& p1.transaction.requested_at@ == p2.transaction.requested_at@
    &&& p1.customer.known_merchants@.len() == p2.customer.known_merchants@.len()
    &&& forall|i: int|
        0 <= i < p1.customer.known_merchants@.len() ==> (
        #[trigger] p1.customer.known_merchants@[i])@ == (
        #[trigger] p2.customer.known_merchants@[i])@
    &&& p1.merchant.id@ == p2.merchant.id@
    &&& p1.merchant.mcc@ == p2.merchant.mcc@
    &&& p1.terminal.is_online == p2.terminal.is_online
    &&& p1.terminal.card_present == p2.terminal.card_present
    &&& crate::float_bits::is_positive_wide(p1.customer.avg_amount)
        == crate::float_bits::is_positive_wide(p2.customer.avg_amount)
    &&& match (p1.last_transaction, p2.last_transaction) {
        (Some(last1), Some(last2)) => last1.timestamp@ == last2.timestamp@,
        (None, None) => true,
        _ => false,
    }
}

/// Whether two scaled numbers are the same, or saturate alike.
pub open spec fn alike(a: u32, b: u32) -> bool {
    a == b || crate::float_bits::both_saturated(a, b)
}

/// Whether all scaled numbers that are read and clamped are alike, and the rest the
/// same.
pub open spec fn ratios_alike(payload: &RequestPayload, r1: Ratios, r2: Ratios) -> bool {
    &&& alike(r1.amount, r2.amount)
    &&& alike(r1.installments, r2.installments)
    &&& crate::float_bits::is_positive_wide(payload.customer.avg_amount) ==> alike(
        r1.amount_vs_avg,
        r2.amount_vs_avg,
    )
    &&& r1.hour == r2.hour
    &&& r1.weekday == r2.weekday
    &&& payload.last_transaction is Some ==> alike(r1.minutes, r2.minutes) && alike(
        r1.km_from_last,
        r2.km_from_last,
    )
    &&& alike(r1.km_from_home, r2.km_from_home)
    &&& alike(r1.tx_count, r2.tx_count)
    &&& alike(r1.merchant_avg, r2.merchant_avg)
}

/// Whether none of the numbers that are read and clamped is -0.0.
pub open spec fn no_minus_zero(payload: &RequestPayload, r: Ratios) -> bool {
    &&& r.amount != crate::float_bits::MINUS_ZERO
    &&& r.installments != crate::float_bits::MINUS_ZERO
    &&& crate::float_bits::is_positive_wide(payload.customer.avg_amount) ==> r.amount_vs_avg
        != crate::float_bits::MINUS_ZERO
    &&& payload.last_transaction is Some ==> r.minutes != crate::float_bits::MINUS_ZERO
        && r.km_from_last != crate::float_bits::MINUS_ZERO
    &&& r.km_from_home != crate::float_bits::MINUS_ZERO
    &&& r.tx_count != crate::float_bits::MINUS_ZERO
    &&& r.merchant_avg != crate::float_bits::MINUS_ZERO
}

/// What a request says does not depend on its numbers.
pub proof fn facts_do_not_depend_on_numbers(
    p1: &RequestPayload,
    p2: &RequestPayload,
    risks: Seq<u32>,
)
    requires
        same_but_for_numbers(p1, p2),
    ensures
        facts_of(p1, risks) == facts_of(p2, risks),
{
    let known1 = p1.customer.known_merchants@;
    let known2 = p2.customer.known_merchants@;
    if is_known(p1) {
        let i = choose|i: int|
            0 <= i < known1.len() && (#[trigger] known1[i])@ == p1.merchant.id@;
        assert(known2[i]@ == p2.merchant.id@);
    }
    if is_known(p2) {
        let i = choose|i: int|
            0 <= i < known2.len() && (#[trigger] known2[i])@ == p2.merchant.id@;
        assert(known1[i]@ == p1.merchant.id@);
    }
}

/// Features saturate: requests whose scaled numbers differ only above 1.0 or only
/// below 0.0 have the same features, lane by lane as numbers, and as bit patterns
/// where no -0.0 takes part.
pub proof fn saturated_requests_have_the_same_features(
    p1: &RequestPayload,
    p2: &RequestPayload,
    risks: Seq<u32>,
    r1: Ratios,
    r2: Ratios,
)
    requires
        same_but_for_numbers(p1, p2),
        ratios_alike(p1, r1, r2),
    ensures
        forall|i: int|
            0 <= i < 16 ==> crate::float_bits::same_number(
                #[trigger] features(p1, facts_of(p1, risks), r1)[i],
                features(p2, facts_of(p2, risks), r2)[i],
            ),
        no_minus_zero(p1, r1) && no_minus_zero(p2, r2) ==> features(p1, facts_of(p1, risks), r1)
            == features(p2, facts_of(p2, risks), r2),
{
    facts_do_not_depend_on_numbers(p1, p2, risks);
    let facts = facts_of(p1, risks);
    let q1 = features(p1, facts, r1);
    let q2 = features(p2, facts, r2);
    assert forall|i: int| 0 <= i < 16 implies crate::float_bits::same_number(
        #[trigger] q1[i],
        q2[i],
    ) by {
        lemma_same_lane(p1, p2, facts, r1, r2, i);
    }
    if no_minus_zero(p1, r1) && no_minus_zero(p2, r2) {
        assert forall|i: int| 0 <= i < 16 implies #[trigger] q1[i] == q2[i] by {
            lemma_same_lane(p1, p2, facts, r1, r2, i);
        }
        assert(q1 =~= q2);
    }
}

proof fn lemma_same_lane(
    p1: &RequestPayload,
    p2: &RequestPayload,
    facts: Facts,
    r1: Ratios,
    r2: Ratios,
    i: int,
)
    requires
        same_but_for_numbers(p1, p2),
        ratios_alike(p1, r1, r2),
        0 <= i < 16,
    ensures
        crate::float_bits::same_number(features(p1, facts, r1)[i], features(p2, facts, r2)[i]),
        no_minus_zero(p1, r1) && no_minus_zero(p2, r2) ==> features(p1, facts, r1)[i] == features(
            p2,
            facts,
            r2,
        )[i],
{
    if i == 0 {
        lemma_alike_clamp(r1.amount, r2.amount);
    } else if i == 1 {
        lemma_alike_clamp(r1.installments, r2.installments);
    } else if i == 2 {
        if crate::float_bits::is_positive_wide(p1.customer.avg_amount) {
            lemma_alike_clamp(r1.amount_vs_avg, r2.amount_vs_avg);
        }
    } else if i == 5 {
        if p1.last_transaction is Some {
            lemma_alike_clamp(r1.minutes, r2.minutes);
        }
    } else if i == 6 {
        if p1.last_transaction is Some {
            lemma_alike_clamp(r1.km_from_last, r2.km_from_last);
        }
    } else if i == 7 {
        lemma_alike_clamp(r1.km_from_home, r2.km_from_home);
    } else if i == 8 {
        lemma_alike_clamp(r1.tx_count, r2.tx_count);
    } else if i == 13 {
        lemma_alike_clamp(r1.merchant_avg, r2.merchant_avg);
    }
}

proof fn lemma_alike_clamp(a: u32, b: u32)
    requires
        alike(a, b),
    ensures
        crate::float_bits::same_number(
            crate::float_bits::clamped(a),
            crate::float_bits::clamped(b),
        ),
        a != crate::float_bits::MINUS_ZERO && b != crate::float_bits::MINUS_ZERO
            ==> crate::float_bits::clamped(a) == crate::float_bits::clamped(b),
{
    if a != b {
        crate::float_bits::clamping_saturates(a, b);
    }
}

/// Whether a lane holds a number from -1.0 to 1.0.
pub open spec fn in_unit_range(bits: u32) -> bool {
    !crate::float_bits::is_nan(bits) && crate::float_bits::order(MINUS_ONE)
        <= crate::float_bits::order(bits) <= crate::float_bits::order(ONE)
}

/// All features of a request are between -1.0 and 1.0 if the scaled numbers that
/// are read are numbers and its hour, weekday and risk are in range.
pub proof fn features_are_in_range(payload: &RequestPayload, facts: Facts, ratios: Ratios)
    requires
        !crate::float_bits::is_nan(ratios.amount),
        !crate::float_bits::is_nan(ratios.installments),
        crate::float_bits::is_positive_wide(payload.customer.avg_amount)
            ==> !crate::float_bits::is_nan(ratios.amount_vs_avg),
        payload.last_transaction is Some ==> !crate::float_bits::is_nan(ratios.minutes),
        payload.last_transaction is Some ==> !crate::float_bits::is_nan(ratios.km_from_last),
        !crate::float_bits::is_nan(ratios.km_from_home),
        !crate::float_bits::is_nan(ratios.tx_count),
        !crate::float_bits::is_nan(ratios.merchant_avg),
        in_unit_range(ratios.hour),
        in_unit_range(ratios.weekday),
        in_unit_range(facts.risk),
    ensures
        forall|i: int| 0 <= i < 16 ==> in_unit_range(#[trigger] features(payload, facts, ratios)[i]),
{
}

/// A scaled number from 0.0 to 1.0 reaches its own lane unchanged, whatever the rest
/// of the request holds: the amount lane 0, the installments lane 1, the amount
/// against a positive average lane 2, the time and the way since the last
/// transaction, where there was one, lanes 5 and 6, the way from home lane 7, the
/// count of transactions lane 8, and the merchant's average lane 13.
pub proof fn number_in_range_reaches_its_lane(
    payload: &RequestPayload,
    facts: Facts,
    ratios: Ratios,
)
    ensures
        features(payload, facts, ratios).len() == 16,
        ratios.amount <= 0x3f80_0000 ==> features(payload, facts, ratios)[0] == ratios.amount,
        ratios.installments <= 0x3f80_0000 ==> features(payload, facts, ratios)[1]
            == ratios.installments,
        0 < payload.customer.avg_amount <= 0x7ff0_0000_0000_0000 && ratios.amount_vs_avg
            <= 0x3f80_0000 ==> features(payload, facts, ratios)[2] == ratios.amount_vs_avg,
        payload.last_transaction is Some && ratios.minutes <= 0x3f80_0000 ==> features(
            payload,
            facts,
            ratios,
        )[5] == ratios.minutes,
        payload.last_transaction is Some && ratios.km_from_last <= 0x3f80_0000 ==> features(
            payload,
            facts,
            ratios,
        )[6] == ratios.km_from_last,
        ratios.km_from_home <= 0x3f80_0000 ==> features(payload, facts, ratios)[7]
            == ratios.km_from_home,
        ratios.tx_count <= 0x3f80_0000 ==> features(payload, facts, ratios)[8] == ratios.tx_count,
        ratios.merchant_avg <= 0x3f80_0000 ==> features(payload, facts, ratios)[13]
            == ratios.merchant_avg,
{
    crate::float_bits::clamping_by_range(ratios.amount);
    crate::float_bits::clamping_by_range(ratios.installments);
    crate::float_bits::clamping_by_range(ratios.amount_vs_avg);
    crate::float_bits::clamping_by_range(ratios.minutes);
    crate::float_bits::clamping_by_range(ratios.km_from_last);
    crate::float_bits::clamping_by_range(ratios.km_from_home);
    crate::float_bits::clamping_by_range(ratios.tx_count);
    crate::float_bits::clamping_by_range(ratios.merchant_avg);
}

/// Whether a lane holds what is left of a number when it is brought between 0.0 and
/// 1.0: numbers above give 1.0 and numbers below 0.0, infinities too; any other
/// pattern stays.
pub open spec fn is_limited(lane: u32, bits: u32) -> bool {
    lane == if 0x3f80_0000 < bits <= 0x7f80_0000 {
        0x3f80_0000
    } else if 0x8000_0000 < bits <= 0xff80_0000 {
        0
    } else {
        bits
    }
}

/// Each scaled number that is read comes limited in its own lane.
pub proof fn each_number_has_its_lane(payload: &RequestPayload, facts: Facts, ratios: Ratios)
    ensures
        is_limited(features(payload, facts, ratios)[0], ratios.amount),
        is_limited(features(payload, facts, ratios)[1], ratios.installments),
        payload.last_transaction is Some ==> is_limited(
            features(payload, facts, ratios)[5],
            ratios.minutes,
        ) && is_limited(features(payload, facts, ratios)[6], ratios.km_from_last),
        is_limited(features(payload, facts, ratios)[7], ratios.km_from_home),
        is_limited(features(payload, facts, ratios)[8], ratios.tx_count),
        is_limited(features(payload, facts, ratios)[13], ratios.merchant_avg),
{
    crate::float_bits::clamping_by_range(ratios.amount);
    crate::float_bits::clamping_by_range(ratios.installments);
    crate::float_bits::clamping_by_range(ratios.minutes);
    crate::float_bits::clamping_by_range(ratios.km_from_last);
    crate::float_bits::clamping_by_range(ratios.km_from_home);
    crate::float_bits::clamping_by_range(ratios.tx_count);
    crate::float_bits::clamping_by_range(ratios.merchant_avg);
}

/// The amount is measured against the customer's average if that is above zero;
/// else lane 2 is 1.0.
pub proof fn amount_is_measured_against_a_positive_average(
    payload: &RequestPayload,
    facts: Facts,
    ratios: Ratios,
)
    ensures
        0 < payload.customer.avg_amount <= 0x7ff0_0000_0000_0000 ==> is_limited(
            features(payload, facts, ratios)[2],
            ratios.amount_vs_avg,
        ),
        !(0 < payload.customer.avg_amount <= 0x7ff0_0000_0000_0000) ==> features(
            payload,
            facts,
            ratios,
        )[2] == 0x3f80_0000,
{
    crate::float_bits::clamping_by_range(ratios.amount_vs_avg);
}

/// The lanes that are not limited: the hour and the weekday come as they were
/// scaled, both lanes of the last transaction are -1.0 where there was none, what
/// is true of the terminal and the merchant is 1.0 and what is false 0.0, the risk
/// comes as the table has it, and two lanes are zero.
pub proof fn other_lanes_are_copied(payload: &RequestPayload, facts: Facts, ratios: Ratios)
    ensures
        features(payload, facts, ratios)[3] == ratios.hour,
        features(payload, facts, ratios)[4] == ratios.weekday,
        payload.last_transaction is None ==> features(payload, facts, ratios)[5] == 0xbf80_0000
            && features(payload, facts, ratios)[6] == 0xbf80_0000,
        payload.terminal.is_online ==> features(payload, facts, ratios)[9] == 0x3f80_0000,
        !payload.terminal.is_online ==> features(payload, facts, ratios)[9] == 0,
        payload.terminal.card_present ==> features(payload, facts, ratios)[10] == 0x3f80_0000,
        !payload.terminal.card_present ==> features(payload, facts, ratios)[10] == 0,
        facts.known_merchant ==> features(payload, facts, ratios)[11] == 0,
        !facts.known_merchant ==> features(payload, facts, ratios)[11] == 0x3f80_0000,
        features(payload, facts, ratios)[12] == facts.risk,
        features(payload, facts, ratios)[14] == 0,
        features(payload, facts, ratios)[15] == 0,
{
}

/// The hour and the weekday depend on the time of the request alone: two requests
/// of the same time have the same, whatever else they hold, their last
/// transactions included.
pub proof fn hour_and_weekday_are_those_of_the_request(
    p1: &RequestPayload,
    p2: &RequestPayload,
    risks1: Seq<u32>,
    risks2: Seq<u32>,
)
    requires
        p1.transaction.requested_at@ == p2.transaction.requested_at@,
    ensures
        facts_of(p1, risks1).hour == facts_of(p2, risks2).hour,
        facts_of(p1, risks1).weekday == facts_of(p2, risks2).weekday,
        facts_of(p1, risks1).hour == crate::calendar::timestamp_hour(
            p1.transaction.requested_at.spec_bytes(),
        ),
        facts_of(p1, risks1).weekday == crate::calendar::timestamp_weekday(
            p1.transaction.requested_at.spec_bytes(),
        ),
{
}

/// A request made at a written date and time has the hour of that time and the
/// weekday of that date. If it has a last transaction, made at another such time,
/// the seconds between them are counted from that one to this one.
pub proof fn facts_of_written_times(
    payload: &RequestPayload,
    risks: Seq<u32>,
    date: (int, int, int),
    time: (int, int, int),
    rest: Seq<u8>,
    last_date: (int, int, int),
    last_time: (int, int, int),
    last_rest: Seq<u8>,
)
    requires
        0 <= date.0 <= 9999,
        0 <= date.1 <= 99,
        0 <= date.2 <= 99,
        0 <= time.0 <= 99,
        0 <= time.1 <= 99,
        0 <= time.2 <= 99,
        0 <= last_date.0 <= 9999,
        0 <= last_date.1 <= 99,
        0 <= last_date.2 <= 99,
        0 <= last_time.0 <= 99,
        0 <= last_time.1 <= 99,
        0 <= last_time.2 <= 99,
        payload.transaction.requested_at.spec_bytes() == crate::calendar::rendered(
            date.0,
            date.1,
            date.2,
            time.0,
            time.1,
            time.2,
        ) + rest,
        payload.last_transaction matches Some(last) ==> last.timestamp.spec_bytes()
            == crate::calendar::rendered(
            last_date.0,
            last_date.1,
            last_date.2,
            last_time.0,
            last_time.1,
            last_time.2,
        ) + last_rest,
    ensures
        facts_of(payload, risks).hour == time.0,
        facts_of(payload, risks).weekday == (crate::calendar::civil_days(date.0, date.1, date.2)
            + 3) % 7,
        payload.last_transaction is None ==> facts_of(payload, risks).elapsed_seconds is None,
        payload.last_transaction is Some ==> (facts_of(payload, risks).elapsed_seconds matches Some(
            seconds,
        ) && seconds == 86400 * (crate::calendar::civil_days(date.0, date.1, date.2)
            - crate::calendar::civil_days(last_date.0, last_date.1, last_date.2)) + 3600 * (time.0
            - last_time.0) + 60 * (time.1 - last_time.1) + (time.2 - last_time.2)),
{
    crate::calendar::rendered_timestamp_is_read_back(
        date.0,
        date.1,
        date.2,
        time.0,
        time.1,
        time.2,
        rest,
    );
    crate::calendar::rendered_timestamp_is_read_back(
        last_date.0,
        last_date.1,
        last_date.2,
        last_time.0,
        last_time.1,
        last_time.2,
        last_rest,
    );
    crate::calendar::epochs_are_bounded(payload.transaction.requested_at.spec_bytes());
    if let Some(last) = payload.last_transaction {
        crate::calendar::epochs_are_bounded(last.timestamp.spec_bytes());
    }
}

/// There is a time since the last transaction if and only if there was one: the
/// epoch second of the request less that of the last transaction, whichever came
/// first.
pub proof fn elapsed_time_is_the_difference(payload: &RequestPayload, risks: Seq<u32>)
    ensures
        facts_of(payload, risks).elapsed_seconds is Some <==> payload.last_transaction is Some,
        payload.last_transaction matches Some(last) ==> facts_of(payload, risks).elapsed_seconds->0
            + crate::calendar::timestamp_epoch(last.timestamp.spec_bytes())
            == crate::calendar::timestamp_epoch(payload.transaction.requested_at.spec_bytes()),
{
    crate::calendar::epochs_are_bounded(payload.transaction.requested_at.spec_bytes());
    if let Some(last) = payload.last_transaction {
        crate::calendar::epochs_are_bounded(last.timestamp.spec_bytes());
    }
}

/// A merchant is known if and only if its name is one of those that the customer
/// has paid, at whatever place of the list.
pub proof fn known_merchants_are_those_paid_before(payload: &RequestPayload, risks: Seq<u32>)
    ensures
        facts_of(payload, risks).known_merchant <==> payload.customer.known_merchants@.map_values(
            |name: &str| name@,
        ).contains(payload.merchant.id@),
{
    let known = payload.customer.known_merchants@;
    let names = known.map_values(|name: &str| name@);
    let id = payload.merchant.id@;
    if is_known(payload) {
        let i = choose|i: int| 0 <= i < known.len() && (#[trigger] known[i])@ == id;
        assert(names[i] == id);
    }
    if names.contains(id) {
        let i = choose|i: int| 0 <= i < names.len() && names[i] == id;
        assert(known[i]@ == id);
    }
}

/// The risk is the one in the slot of the merchant's category, of which there are
/// ten thousand; any other category has 0.5.
pub proof fn risk_is_that_of_the_category(payload: &RequestPayload, risks: Seq<u32>)
    ensures
        ({
            let mcc = crate::mcc::mcc_of(payload.merchant.mcc.spec_bytes());
            &&& mcc < 10000 ==> facts_of(payload, risks).risk == risks[mcc as int]
            &&& mcc >= 10000 ==> facts_of(payload, risks).risk == 0x3f00_0000
        }),
{
}

/// A request of a category that a table lists has the risk of the last entry with
/// that code.
pub proof fn listed_category_has_the_listed_risk(
    payload: &RequestPayload,
    entries: Seq<(String, u32)>,
    i: int,
)
    requires
        0 <= i < entries.len(),
        payload.merchant.mcc@ == entries[i].0@,
        crate::mcc::mcc_of_text(entries[i].0@) < 10000,
        forall|j: int|
            i < j < entries.len() ==> crate::mcc::mcc_of_text((#[trigger] entries[j]).0@)
                != crate::mcc::mcc_of_text(entries[i].0@),
    ensures
        facts_of(payload, crate::mcc::table_of(entries)).risk == entries[i].1,
{
    crate::mcc::text_and_bytes_name_the_same_category(payload.merchant.mcc);
    crate::mcc::last_entry_of_a_category_stands(entries, i);
}

} // verus!
