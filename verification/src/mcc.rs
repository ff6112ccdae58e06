//! Merchant category codes and the risk that goes with them.
//!
//! A risk is a 32-bit float that is only stored and handed on, so it is kept as
//! its bit pattern.
use vstd::prelude::*;
use vstd::string::StringSliceAdditionalSpecFns;

verus! {

/// How many category codes have a risk of their own: those below this number.
pub const RISK_SLOTS: usize = 10000;

/// The risk of a category without an entry: the bit pattern of 0.5.
pub const DEFAULT_RISK: u32 = 0x3f00_0000;

/// Whether a byte is an ASCII digit.
pub open spec fn is_digit(b: u8) -> bool {
    0x30 <= b <= 0x39
}

/// The number that the ASCII digits of a text spell, all other bytes left out.
pub open spec fn digits_value(b: Seq<u8>) -> nat
    decreases b.len(),
{
    if b.len() == 0 {
        0
    } else if is_digit(b.last()) {
        digits_value(b.drop_last()) * 10 + (b.last() - 0x30) as nat
    } else {
        digits_value(b.drop_last())
    }
}

/// The category code that a text names: its digits as a machine-size number,
/// which wraps around.
pub open spec fn mcc_of(b: Seq<u8>) -> nat {
    digits_value(b) % (usize::MAX as nat + 1)
}

/// The category code that a string names.
pub open spec fn mcc_of_text(text: Seq<char>) -> nat {
    mcc_of(vstd::utf8::encode_utf8(text))
}

/// The risk that a list of entries gives a category: that of its last entry.
pub open spec fn risk_of(entries: Seq<(String, u32)>, mcc: int) -> u32
    decreases entries.len(),
{
    if entries.len() == 0 {
        DEFAULT_RISK
    } else if mcc_of_text(entries.last().0@) == mcc {
        entries.last().1
    } else {
        risk_of(entries.drop_last(), mcc)
    }
}

/// How many entries name a category that has a risk of its own.
pub open spec fn entries_in_range(entries: Seq<(String, u32)>) -> nat
    decreases entries.len(),
{
    if entries.len() == 0 {
        0
    } else {
        entries_in_range(entries.drop_last()) + if mcc_of_text(entries.last().0@) < RISK_SLOTS {
            1nat
        } else {
            0nat
        }
    }
}

/// The risks of all categories that have one of their own.
pub open spec fn table_of(entries: Seq<(String, u32)>) -> Seq<u32> {
    Seq::new(RISK_SLOTS as nat, |mcc: int| risk_of(entries, mcc))
}

proof fn lemma_wrapped_step(v: nat, d: nat, m: nat)
    requires
        m > 0,
    ensures
        ((v % m) * 10 % m + d) % m == (v * 10 + d) % m,
{
    let wrapped = ((v % m) * 10) as int;
    vstd::arithmetic::div_mod::lemma_mul_mod_noop_left(v as int, 10, m as int);
    vstd::arithmetic::div_mod::lemma_add_mod_noop_right(d as int, wrapped, m as int);
    vstd::arithmetic::div_mod::lemma_add_mod_noop_right(d as int, (v * 10) as int, m as int);
}

proof fn lemma_wrapped_sum(a: nat, d: nat, m: nat)
    requires
        a < m,
        d < m,
    ensures
        a + d < m ==> (a + d) % m == a + d,
        a + d >= m ==> (a + d) % m == a + d - m,
{
    if a + d < m {
        vstd::arithmetic::div_mod::lemma_small_mod(a + d, m);
    } else {
        vstd::arithmetic::div_mod::lemma_mod_sub_multiples_vanish((a + d) as int, m as int);
        vstd::arithmetic::div_mod::lemma_small_mod((a + d - m) as nat, m);
    }
}

/// Reads the digits of a category code.
pub fn parse_mcc(mcc_str: &str) -> (val: usize)
    ensures
        val == mcc_of(mcc_str.spec_bytes()),
{
    let bytes: &[u8] = mcc_str.as_bytes();
    let mut val: usize = 0;
    let mut i: usize = 0;
    while i < bytes.len()
        invariant
            i <= bytes@.len(),
            val == mcc_of(bytes@.take(i as int)),
        decreases bytes@.len() - i,
    {
        let b: u8 = bytes[i];
        assert(bytes@.take(i + 1).drop_last() =~= bytes@.take(i as int));
        if b >= 0x30 && b <= 0x39 {
            let d: usize = (b - 0x30) as usize;
            let tens: usize = val.wrapping_mul(10);
            proof {
                let m = usize::MAX as nat + 1;
                lemma_wrapped_step(digits_value(bytes@.take(i as int)), d as nat, m);
                lemma_wrapped_sum(tens as nat, d as nat, m);
            }
            val = tens.wrapping_add(d);
        }
        i += 1;
    }
    assert(bytes@.take(i as int) =~= bytes@);
    val
}

/// The risk of each merchant category.
pub struct RiskTable {
    risks: Vec<u32>,
}

impl View for RiskTable {
    type V = Seq<u32>;

    closed spec fn view(&self) -> Seq<u32> {
        self.risks@
    }
}

impl RiskTable {
    #[verifier::type_invariant]
    spec fn one_slot_per_category(&self) -> bool {
        self.risks@.len() == RISK_SLOTS
    }

    /// Makes the table of a list of entries, each a code and a risk, and counts
    /// the entries that found a slot. Where two entries name the same category
    /// the later one stands.
    pub fn load(entries: &Vec<(String, u32)>) -> (r: (RiskTable, usize))
        ensures
            r.0@ == Seq::new(RISK_SLOTS as nat, |mcc: int| risk_of(entries@, mcc)),
            r.0@ == table_of(entries@),
            r.1 == entries_in_range(entries@),
    {
        let mut risks: Vec<u32> = Vec::new();
        while risks.len() < RISK_SLOTS
            invariant
                risks@.len() <= RISK_SLOTS,
                forall|mcc: int| 0 <= mcc < risks@.len() ==> risks@[mcc] == DEFAULT_RISK,
            decreases RISK_SLOTS - risks@.len(),
        {
            risks.push(DEFAULT_RISK);
        }
        let mut count: usize = 0;
        let mut i: usize = 0;
        while i < entries.len()
            invariant
                i <= entries@.len(),
                count <= i,
                risks@.len() == RISK_SLOTS,
                forall|mcc: int|
                    0 <= mcc < RISK_SLOTS ==> #[trigger] risks@[mcc] == risk_of(
                        entries@.take(i as int),
                        mcc,
                    ),
                count == entries_in_range(entries@.take(i as int)),
            decreases entries@.len() - i,
        {
            let mcc: usize = parse_mcc(entries[i].0.as_str());
            assert(entries@.take(i + 1).drop_last() =~= entries@.take(i as int));
            assert(mcc == mcc_of_text(entries@[i as int].0@));
            if mcc < RISK_SLOTS {
                risks[mcc] = entries[i].1;
                count += 1;
            }
            i += 1;
        }
        assert(entries@.take(i as int) =~= entries@);
        assert(risks@ =~= Seq::new(RISK_SLOTS as nat, |mcc: int| risk_of(entries@, mcc)));
        (RiskTable { risks }, count)
    }

    /// The risk of the category that a code names.
    pub fn risk(&self, mcc_str: &str) -> (r: u32)
        ensures
            r == if mcc_of(mcc_str.spec_bytes()) < RISK_SLOTS {
                self@[mcc_of(mcc_str.spec_bytes()) as int]
            } else {
                DEFAULT_RISK
            },
    {
        proof {
            use_type_invariant(self);
        }
        let mcc: usize = parse_mcc(mcc_str);
        if mcc < RISK_SLOTS {
            self.risks[mcc]
        } else {
            DEFAULT_RISK
        }
    }
}

/// Bytes that are no digits make no difference to a code.
pub proof fn only_digits_count(b: Seq<u8>)
    ensures
        mcc_of(b) == mcc_of(b.filter(|x: u8| is_digit(x))),
{
    lemma_only_digits(b);
}

proof fn lemma_only_digits(b: Seq<u8>)
    ensures
        digits_value(b) == digits_value(b.filter(|x: u8| is_digit(x))),
    decreases b.len(),
{
    reveal(Seq::filter);
    let keep = |x: u8| is_digit(x);
    if b.len() > 0 {
        lemma_only_digits(b.drop_last());
        if is_digit(b.last()) {
            assert(b.filter(keep) == b.drop_last().filter(keep).push(b.last()));
            assert(b.filter(keep).drop_last() =~= b.drop_last().filter(keep));
        }
    }
}

/// A code written with four digits names its own slot of the table.
pub proof fn four_digits_name_a_slot(b: Seq<u8>)
    requires
        b.len() == 4,
        forall|i: int| 0 <= i < 4 ==> is_digit(#[trigger] b[i]),
    ensures
        mcc_of(b) == (b[0] - 0x30) * 1000 + (b[1] - 0x30) * 100 + (b[2] - 0x30) * 10 + (b[3]
            - 0x30),
        mcc_of(b) < RISK_SLOTS,
{
    let b3 = b.drop_last();
    let b2 = b3.drop_last();
    let b1 = b2.drop_last();
    assert(digits_value(b1.drop_last()) == 0);
    assert(b1.last() == b[0] && b2.last() == b[1] && b3.last() == b[2] && b.last() == b[3]);
    assert(digits_value(b1) == b[0] - 0x30);
    assert(digits_value(b2) == digits_value(b1) * 10 + (b[1] - 0x30));
    assert(digits_value(b3) == digits_value(b2) * 10 + (b[2] - 0x30));
    assert(digits_value(b) == digits_value(b3) * 10 + (b[3] - 0x30));
    vstd::arithmetic::div_mod::lemma_small_mod(digits_value(b), usize::MAX as nat + 1);
}

/// A category that no entry names has the default risk.
pub proof fn unlisted_category_has_default_risk(entries: Seq<(String, u32)>, mcc: int)
    requires
        forall|i: int| 0 <= i < entries.len() ==> mcc_of_text((#[trigger] entries[i]).0@) != mcc,
    ensures
        risk_of(entries, mcc) == DEFAULT_RISK,
    decreases entries.len(),
{
    if entries.len() > 0 {
        let init = entries.drop_last();
        assert(forall|i: int| 0 <= i < init.len() ==> init[i] == entries[i]);
        assert(entries.last() == entries[entries.len() - 1]);
        unlisted_category_has_default_risk(init, mcc);
    }
}

/// The entry at position `i` stands if no later entry names its category.
pub proof fn last_entry_of_a_category_stands(entries: Seq<(String, u32)>, i: int)
    requires
        0 <= i < entries.len(),
        forall|j: int|
            i < j < entries.len() ==> mcc_of_text((#[trigger] entries[j]).0@) != mcc_of_text(
                entries[i].0@,
            ),
    ensures
        risk_of(entries, mcc_of_text(entries[i].0@) as int) == entries[i].1,
    decreases entries.len(),
{
    if i < entries.len() - 1 {
        let init = entries.drop_last();
        assert(forall|j: int| 0 <= j < init.len() ==> init[j] == entries[j]);
        assert(entries.last() == entries[entries.len() - 1]);
        last_entry_of_a_category_stands(init, i);
    }
}

/// A code is read digit by digit, each behind the ones before it: a digit makes the
/// code ten times as large and adds its worth, round in a machine-size number.
/// Another byte leaves the code as it is, and no bytes give zero.
pub proof fn each_digit_goes_behind(b: Seq<u8>, c: u8)
    ensures
        mcc_of(Seq::empty()) == 0,
        48 <= c <= 57 ==> mcc_of(b.push(c)) == (10 * mcc_of(b) + (c - 48)) % (usize::MAX + 1),
        !(48 <= c <= 57) ==> mcc_of(b.push(c)) == mcc_of(b),
{
    let m = usize::MAX as nat + 1;
    assert(b.push(c).drop_last() =~= b);
    vstd::arithmetic::div_mod::lemma_small_mod(0, m);
    if 48 <= c <= 57 {
        let d = (c - 48) as nat;
        lemma_wrapped_step(digits_value(b), d, m);
        vstd::arithmetic::div_mod::lemma_add_mod_noop_right(
            d as int,
            (mcc_of(b) * 10) as int,
            m as int,
        );
    }
}

/// A string and its bytes name the same category.
pub proof fn text_and_bytes_name_the_same_category(text: &str)
    ensures
        mcc_of_text(text@) == mcc_of(text.spec_bytes()),
{
}

/// The entries in range are those at the positions whose code is below ten thousand.
pub proof fn entries_in_range_counts_positions(entries: Seq<(String, u32)>)
    ensures
        entries_in_range(entries) == Set::new(
            |i: int| 0 <= i < entries.len() && mcc_of_text(entries[i].0@) < 10000,
        ).len(),
    decreases entries.len(),
{
    let p = |i: int, e: (String, u32)| mcc_of_text(e.0@) < 10000;
    crate::counting::positions_step(entries, p);
    assert(Set::new(|i: int| 0 <= i < entries.len() && mcc_of_text(entries[i].0@) < 10000)
        =~= crate::counting::positions(entries, p));
    if entries.len() > 0 {
        let init = entries.drop_last();
        entries_in_range_counts_positions(init);
        assert(Set::new(|i: int| 0 <= i < init.len() && mcc_of_text(init[i].0@) < 10000)
            =~= crate::counting::positions(init, p));
    }
}

/// An entry sets the risk of its own category and of no other, and before any entry
/// every category has 0.5.
pub proof fn each_entry_sets_its_own_category(
    entries: Seq<(String, u32)>,
    entry: (String, u32),
    mcc: int,
)
    ensures
        risk_of(Seq::empty(), mcc) == 0x3f00_0000,
        mcc_of_text(entry.0@) == mcc ==> risk_of(entries.push(entry), mcc) == entry.1,
        mcc_of_text(entry.0@) != mcc ==> risk_of(entries.push(entry), mcc) == risk_of(
            entries,
            mcc,
        ),
{
    assert(entries.push(entry).drop_last() =~= entries);
}

/// A table has ten thousand slots, each 0.5 before any entry. An entry sets the slot
/// of its own category, if there is one, and leaves all others.
pub proof fn each_entry_sets_its_own_slot(
    entries: Seq<(String, u32)>,
    entry: (String, u32),
    slot: int,
)
    requires
        0 <= slot < 10000,
    ensures
        table_of(entries).len() == 10000,
        table_of(Seq::empty())[slot] == 0x3f00_0000,
        mcc_of_text(entry.0@) == slot ==> table_of(entries.push(entry))[slot] == entry.1,
        mcc_of_text(entry.0@) != slot ==> table_of(entries.push(entry))[slot] == table_of(
            entries,
        )[slot],
{
    each_entry_sets_its_own_category(entries, entry, slot);
}

} // verus!
