//! Resource limits and the validated quantities they are made of.
use std::convert::TryFrom;
use std::str::FromStr;
use vstd::prelude::*;
use vstd::std_specs::cmp::PartialEqSpecImpl;
use vstd::std_specs::convert::TryFromSpecImpl;

use crate::error::Error;
use crate::text::{
    str_eq,
    lemma_dec_nat_digits, lemma_parse_dec_nat, lemma_trim_idempotent, lemma_trim_unchanged,
    chars_of, dec_int, dec_nat, digits_value, has_suffix, parse_u64, parse_unsigned, push_i64,
    push_u64, string_of, trim, trim_bounds, all_digits, unsigned_body, is_ws, trim_start, trim_end,
};

verus! {

// ---------------------------------------------------------------------------
// MemorySize
// ---------------------------------------------------------------------------

/// The unit suffix letter of a memory size and its multiplier.
pub open spec fn unit_multiplier(c: char) -> nat {
    if c == 'T' {
        1099511627776
    } else if c == 'G' {
        1073741824
    } else if c == 'M' {
        1048576
    } else if c == 'K' {
        1024
    } else {
        1
    }
}

/// Whether `c` is a unit suffix letter (`T`, `G`, `M`, `K`).
pub open spec fn is_unit(c: char) -> bool {
    c == 'T' || c == 'G' || c == 'M' || c == 'K'
}

/// The outcome of reading a memory size.
pub enum MemoryReading {
    /// Nothing but whitespace.
    Empty,
    /// The number is not an unsigned integer.
    Invalid,
    /// The size does not fit in 64 bits.
    Overflow,
    /// A size of this many bytes.
    Bytes(nat),
}

/// The number part of a (trimmed) memory size text.
pub open spec fn memory_number(t: Seq<char>) -> Seq<char> {
    if t.len() > 0 && is_unit(t.last()) {
        trim(t.drop_last())
    } else {
        trim(t)
    }
}

/// The multiplier of a (trimmed) memory size text.
pub open spec fn memory_multiplier(t: Seq<char>) -> nat {
    if t.len() > 0 && is_unit(t.last()) {
        unit_multiplier(t.last())
    } else {
        1
    }
}

/// How a memory size text such as `"512M"`, `" 2G "` or `"4096"` reads.
pub open spec fn read_memory(s: Seq<char>) -> MemoryReading {
    let t = trim(s);
    if t.len() == 0 {
        MemoryReading::Empty
    } else {
        match parse_unsigned(memory_number(t), u64::MAX as nat) {
            None => MemoryReading::Invalid,
            Some(n) => if n * memory_multiplier(t) <= u64::MAX {
                MemoryReading::Bytes(n * memory_multiplier(t))
            } else {
                MemoryReading::Overflow
            },
        }
    }
}

/// Memory size with human-readable format (e.g., "512M", "2G") or raw bytes.
///
/// Keeps the text it was read from, for lossless rendering.
#[derive(Debug, Eq)]
pub struct MemorySize {
    bytes: u64,
    display: String,
}

impl MemorySize {
    /// The size in bytes.
    pub closed spec fn bytes(&self) -> nat {
        self.bytes as nat
    }

    /// The text the size renders as.
    pub closed spec fn text(&self) -> Seq<char> {
        self.display@
    }

    /// The text is trimmed and reads back as the size.
    #[verifier::type_invariant]
    closed spec fn text_reads_back(self) -> bool {
        &&& read_memory(self.display@) == MemoryReading::Bytes(self.bytes as nat)
        &&& trim(self.display@) == self.display@
    }

    /// Create from a raw byte count.
    pub fn from_bytes(bytes: u64) -> (m: MemorySize)
        ensures
            m.bytes() == bytes,
            m.text() == dec_nat(bytes as nat),
    {
        let mut display = String::new();
        push_u64(&mut display, bytes);
        assert(display@ =~= dec_nat(bytes as nat));
        proof {
            lemma_memory_decimal_reads(bytes);
        }
        MemorySize { bytes, display }
    }

    /// Parse a human-readable memory string (e.g. `"512M"`, `"2G"`, `"1024K"`,
    /// `"1T"`) or a plain number of bytes.
    pub fn parse(s: &str) -> (r: Result<MemorySize, Error>)
        ensures
            match r {
                Ok(m) => read_memory(s@) == MemoryReading::Bytes(m.bytes()) && m.text() == trim(
                    s@,
                ),
                Err(e) => match read_memory(s@) {
                    MemoryReading::Empty => e is ConfigError && e->ConfigError_0@
                        == "empty memory size string"@,
                    MemoryReading::Invalid => e is ConfigError && e->ConfigError_0@
                        == "invalid memory size: "@ + trim(s@),
                    MemoryReading::Overflow => e is ConfigError && e->ConfigError_0@
                        == "memory size overflow: "@ + trim(s@),
                    MemoryReading::Bytes(_) => false,
                },
            },
    {
        let v = chars_of(s);
        let (lo, hi) = trim_bounds(&v);
        let t = string_of(s, lo, hi);
        if hi == lo {
            return Err(Error::ConfigError("empty memory size string".to_owned()));
        }
        let last = v[hi - 1];
        let ghost tv = t@;
        assert(tv.last() == last);
        let (end, mult): (usize, u64) = if last == 'T' {
            (hi - 1, 1099511627776u64)
        } else if last == 'G' {
            (hi - 1, 1073741824u64)
        } else if last == 'M' {
            (hi - 1, 1048576u64)
        } else if last == 'K' {
            (hi - 1, 1024u64)
        } else {
            (hi, 1u64)
        };
        let num_text = string_of(s, lo, end);
        assert(num_text@ =~= if is_unit(tv.last()) { tv.drop_last() } else { tv });
        let num_trimmed_chars = chars_of(num_text.as_str());
        let (a, b) = trim_bounds(&num_trimmed_chars);
        let num = string_of(num_text.as_str(), a, b);
        assert(num@ == memory_number(tv));
        assert(mult as nat == memory_multiplier(tv));
        match parse_u64(num.as_str()) {
            None => {
                let mut m = String::new();
                m.append("invalid memory size: ");
                m.append(t.as_str());
                Err(Error::ConfigError(m))
            },
            Some(n) => {
                match n.checked_mul(mult) {
                    Some(bytes) => {
                        proof {
                            lemma_trim_idempotent(s@);
                        }
                        Ok(MemorySize { bytes, display: t })
                    },
                    None => {
                        let mut m = String::new();
                        m.append("memory size overflow: ");
                        m.append(t.as_str());
                        Err(Error::ConfigError(m))
                    },
                }
            },
        }
    }

    /// Return the size in bytes.
    pub fn as_bytes(&self) -> (r: u64)
        ensures
            r == self.bytes(),
    {
        self.bytes
    }

    /// The text this size renders as; it is trimmed and reads back as the same size, so
    /// parsing it gives a size equal to this one.
    pub fn to_string(&self) -> (r: String)
        ensures
            r@ == self.text(),
            read_memory(r@) == MemoryReading::Bytes(self.bytes()),
            trim(r@) == r@,
    {
        proof {
            use_type_invariant(self);
        }
        self.display.clone()
    }

    /// An identical copy.
    pub fn dup(&self) -> (r: MemorySize)
        ensures
            r == *self,
    {
        proof {
            use_type_invariant(self);
        }
        MemorySize { bytes: self.bytes, display: self.display.clone() }
    }
}

impl PartialEq for MemorySize {
    fn eq(&self, other: &Self) -> (r: bool) {
        self.bytes == other.bytes && str_eq(self.display.as_str(), other.display.as_str())
    }
}

impl PartialEqSpecImpl for MemorySize {
    open spec fn obeys_eq_spec() -> bool {
        true
    }

    /// Two sizes are equal when they have the same bytes and the same text.
    open spec fn eq_spec(&self, other: &MemorySize) -> bool {
        self.bytes() == other.bytes() && self.text() == other.text()
    }
}

impl Clone for MemorySize {
    fn clone(&self) -> (r: Self)
        ensures
            r == *self,
    {
        self.dup()
    }
}

/// A size read from `s` renders as `trim(s)`, and that text reads as the same size and
/// is its own trim: so `parse` of the rendering succeeds with the same bytes and text,
/// a size equal to the first.
pub proof fn lemma_memory_reparse(s: Seq<char>, b: nat)
    requires
        read_memory(s) == MemoryReading::Bytes(b),
    ensures
        read_memory(trim(s)) == MemoryReading::Bytes(b),
        trim(trim(s)) == trim(s),
{
    lemma_trim_idempotent(s);
}

/// The decimal text of a byte count is its own trim and reads as that many bytes: so
/// `parse` of the rendering of `from_bytes(b)` gives a size equal to it.
pub proof fn lemma_memory_decimal_reads(b: u64)
    ensures
        read_memory(dec_nat(b as nat)) == MemoryReading::Bytes(b as nat),
        trim(dec_nat(b as nat)) == dec_nat(b as nat),
{
    let t = dec_nat(b as nat);
    lemma_dec_nat_digits(b as nat);
    assert('0' <= t[0] <= '9' && '0' <= t.last() <= '9');
    lemma_trim_unchanged(t);
    lemma_parse_dec_nat(b as nat, u64::MAX as nat);
    assert(memory_number(t) == t);
    assert(memory_multiplier(t) == 1);
}

impl FromStr for MemorySize {
    type Err = Error;

    fn from_str(s: &str) -> (r: Result<MemorySize, Error>)
        ensures
            match r {
                Ok(m) => read_memory(s@) == MemoryReading::Bytes(m.bytes()) && m.text() == trim(s@),
                Err(e) => match read_memory(s@) {
                    MemoryReading::Empty => e is ConfigError && e->ConfigError_0@
                        == "empty memory size string"@,
                    MemoryReading::Invalid => e is ConfigError && e->ConfigError_0@
                        == "invalid memory size: "@ + trim(s@),
                    MemoryReading::Overflow => e is ConfigError && e->ConfigError_0@
                        == "memory size overflow: "@ + trim(s@),
                    MemoryReading::Bytes(_) => false,
                },
            },
    {
        MemorySize::parse(s)
    }
}

// ---------------------------------------------------------------------------
// Weight
// ---------------------------------------------------------------------------

/// Weight value constrained to 1..=10000 (systemd `CPUWeight=` / `IOWeight=`).
#[derive(Debug, Clone, Copy, PartialEq, Eq, Hash)]
pub struct Weight(u64);

impl Weight {
    /// The weight's value.
    pub closed spec fn val(&self) -> nat {
        self.0 as nat
    }

    /// Every weight lies in `1..=10000`.
    #[verifier::type_invariant]
    pub closed spec fn valid(&self) -> bool {
        1 <= self.0 <= 10000
    }

    /// Create a new `Weight`, validating the range.
    pub fn new(v: u64) -> (r: Result<Weight, Error>)
        ensures
            match r {
                Ok(w) => 1 <= v <= 10000 && w.val() == v && w.valid(),
                Err(e) => !(1 <= v <= 10000) && e is ConfigError && e->ConfigError_0@
                    == "weight must be 1-10000, got "@ + dec_nat(v as nat),
            },
    {
        if 1 <= v && v <= 10000 {
            Ok(Weight(v))
        } else {
            let mut m = String::new();
            m.append("weight must be 1-10000, got ");
            push_u64(&mut m, v);
            Err(Error::ConfigError(m))
        }
    }

    /// Return the inner value.
    pub fn value(&self) -> (r: u64)
        ensures
            r == self.val(),
            1 <= r <= 10000,
    {
        proof {
            use_type_invariant(self);
        }
        self.0
    }

    /// The decimal text of the weight.
    pub fn to_string(&self) -> (r: String)
        ensures
            r@ == dec_nat(self.val()),
    {
        let mut m = String::new();
        push_u64(&mut m, self.0);
        assert(m@ =~= dec_nat(self.val()));
        m
    }
}

/// Two weights with the same value are the same weight; so `Weight::new(w.value())`
/// gives `w` back.
pub proof fn lemma_weight_same(a: Weight, b: Weight)
    requires
        a.val() == b.val(),
    ensures
        a == b,
{
}

impl TryFrom<u64> for Weight {
    type Error = Error;

    fn try_from(v: u64) -> (r: Result<Weight, Error>)
        ensures
            match r {
                Ok(w) => 1 <= v <= 10000 && w.val() == v,
                Err(e) => !(1 <= v <= 10000) && e is ConfigError && e->ConfigError_0@
                    == "weight must be 1-10000, got "@ + dec_nat(v as nat),
            },
    {
        Weight::new(v)
    }
}

impl TryFromSpecImpl<u64> for Weight {
    open spec fn obeys_try_from_spec() -> bool {
        false
    }

    open spec fn try_from_spec(v: u64) -> Result<Weight, Error> {
        arbitrary()
    }
}

// ---------------------------------------------------------------------------
// NiceValue
// ---------------------------------------------------------------------------

/// Nice value constrained to -20..=19.
#[derive(Debug, Clone, Copy, PartialEq, Eq, Hash)]
pub struct NiceValue(i32);

impl NiceValue {
    /// The nice value.
    pub closed spec fn val(&self) -> int {
        self.0 as int
    }

    /// Every nice value lies in `-20..=19`.
    #[verifier::type_invariant]
    pub closed spec fn valid(&self) -> bool {
        -20 <= self.0 <= 19
    }

    /// Create a new `NiceValue`, validating the range.
    pub fn new(v: i32) -> (r: Result<NiceValue, Error>)
        ensures
            match r {
                Ok(n) => -20 <= v <= 19 && n.val() == v && n.valid(),
                Err(e) => !(-20 <= v <= 19) && e is ConfigError && e->ConfigError_0@
                    == "nice must be -20..19, got "@ + dec_int(v as int),
            },
    {
        if -20 <= v && v <= 19 {
            Ok(NiceValue(v))
        } else {
            let mut m = String::new();
            m.append("nice must be -20..19, got ");
            push_i64(&mut m, v as i64);
            Err(Error::ConfigError(m))
        }
    }

    /// Return the inner value.
    pub fn value(&self) -> (r: i32)
        ensures
            r == self.val(),
            -20 <= r <= 19,
    {
        proof {
            use_type_invariant(self);
        }
        self.0
    }

    /// The decimal text of the nice value.
    pub fn to_string(&self) -> (r: String)
        ensures
            r@ == dec_int(self.val()),
    {
        let mut m = String::new();
        push_i64(&mut m, self.0 as i64);
        assert(m@ =~= dec_int(self.val()));
        m
    }
}

/// Two nice values with the same value are the same; so `NiceValue::new(n.value())`
/// gives `n` back.
pub proof fn lemma_nice_same(a: NiceValue, b: NiceValue)
    requires
        a.val() == b.val(),
    ensures
        a == b,
{
}

impl TryFrom<i32> for NiceValue {
    type Error = Error;

    fn try_from(v: i32) -> (r: Result<NiceValue, Error>)
        ensures
            match r {
                Ok(n) => -20 <= v <= 19 && n.val() == v,
                Err(e) => !(-20 <= v <= 19) && e is ConfigError && e->ConfigError_0@
                    == "nice must be -20..19, got "@ + dec_int(v as int),
            },
    {
        NiceValue::new(v)
    }
}

impl TryFromSpecImpl<i32> for NiceValue {
    open spec fn obeys_try_from_spec() -> bool {
        false
    }

    open spec fn try_from_spec(v: i32) -> Result<NiceValue, Error> {
        arbitrary()
    }
}

// ---------------------------------------------------------------------------
// ResourceLimits
// ---------------------------------------------------------------------------

/// Resource limits for a service (maps to systemd cgroup directives / launchd
/// resource limits).
#[derive(Debug, Clone)]
pub struct ResourceLimits {
    /// Maximum memory (e.g., `"512M"`, `"1G"`). Maps to `MemoryMax=`.
    pub memory_max: Option<MemorySize>,
    /// Memory high watermark (throttling threshold). Maps to `MemoryHigh=`.
    pub memory_high: Option<MemorySize>,
    /// CPU weight (1-10000). Maps to `CPUWeight=`.
    pub cpu_weight: Option<Weight>,
    /// CPU quota (e.g., `"50%"` or `"200%"` for multi-core). Maps to `CPUQuota=`.
    pub cpu_quota: Option<String>,
    /// Maximum number of tasks/threads. Maps to `TasksMax=`.
    pub tasks_max: Option<u64>,
    /// I/O weight (1-10000). Maps to `IOWeight=`.
    pub io_weight: Option<Weight>,
    /// Nice value (-20 to 19). Maps to `Nice=`.
    pub nice: Option<NiceValue>,
}

impl Default for ResourceLimits {
    fn default() -> (r: Self)
        ensures
            r.memory_max is None,
            r.memory_high is None,
            r.cpu_weight is None,
            r.cpu_quota is None,
            r.tasks_max is None,
            r.io_weight is None,
            r.nice is None,
    {
        ResourceLimits {
            memory_max: None,
            memory_high: None,
            cpu_weight: None,
            cpu_quota: None,
            tasks_max: None,
            io_weight: None,
            nice: None,
        }
    }
}

/// An identical copy of an optional memory size.
pub fn dup_memory(m: &Option<MemorySize>) -> (r: Option<MemorySize>)
    ensures
        r == *m,
{
    match m {
        Some(x) => Some(x.dup()),
        None => None,
    }
}

/// An identical copy of an optional string.
pub fn dup_text(m: &Option<String>) -> (r: Option<String>)
    ensures
        r == *m,
{
    match m {
        Some(x) => Some(x.clone()),
        None => None,
    }
}

impl ResourceLimits {
    /// An identical copy.
    pub fn dup(&self) -> (r: ResourceLimits)
        ensures
            r == *self,
    {
        ResourceLimits {
            memory_max: dup_memory(&self.memory_max),
            memory_high: dup_memory(&self.memory_high),
            cpu_weight: self.cpu_weight,
            cpu_quota: dup_text(&self.cpu_quota),
            tasks_max: self.tasks_max,
            io_weight: self.io_weight,
            nice: self.nice,
        }
    }
}

} // verus!
