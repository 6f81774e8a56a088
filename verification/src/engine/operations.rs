//! Operations on the node's rules: config pushes, and the durations and sizes
//! they are written in.

use vstd::prelude::*;

use crate::manage::command;
use crate::manage::{Scope, ScopeView};
use crate::text;

verus! {

/// Seconds in one minute.
pub const SECS_PER_MINUTE: i64 = 60;

/// Seconds in one hour.
pub const SECS_PER_HOUR: i64 = 3_600;

/// Seconds in one day.
pub const SECS_PER_DAY: i64 = 86_400;

/// Seconds in one week.
pub const SECS_PER_WEEK: i64 = 604_800;

/// Bytes in one kibibyte.
pub const BYTES_PER_KIB: i64 = 1_024;

/// Bytes in one mebibyte.
pub const BYTES_PER_MIB: i64 = 1_048_576;

/// Bytes in one gibibyte.
pub const BYTES_PER_GIB: i64 = 1_073_741_824;

/// Bytes in one tebibyte.
pub const BYTES_PER_TIB: i64 = 1_099_511_627_776;

/// Why a duration or a size cannot be read.
#[derive(Debug)]
pub enum AmountError {
    /// There is no duration.
    EmptyDuration,
    /// The count of a duration is no integer that fits.
    DurationCount {
        /// The duration as written.
        raw: String,
        /// What is wrong with the count.
        reason: String,
    },
    /// The duration is too long.
    DurationOverflow {
        /// The duration as written.
        raw: String,
    },
    /// There is no size.
    EmptySize,
    /// The count of a size is no integer that fits.
    SizeCount {
        /// The size as written.
        raw: String,
        /// What is wrong with the count.
        reason: String,
    },
    /// The size is too large.
    SizeOverflow {
        /// The size as written.
        raw: String,
    },
}

/// Why a duration or a size cannot be read, over texts.
#[verifier::ext_equal]
pub enum AmountFault {
    /// There is nothing to read.
    Empty,
    /// The count is no integer that fits; this is what is wrong with it.
    Count(Seq<char>),
    /// The amount does not fit.
    Overflow,
}

impl AmountFault {
    /// The text of the fault in a duration.
    pub open spec fn duration_text(self, raw: Seq<char>) -> Seq<char> {
        match self {
            AmountFault::Empty => "empty duration"@,
            AmountFault::Count(reason) => "invalid duration count in "@ + raw + ": "@ + reason,
            AmountFault::Overflow => "duration overflow in "@ + raw,
        }
    }

    /// The text of the fault in a size.
    pub open spec fn size_text(self, raw: Seq<char>) -> Seq<char> {
        match self {
            AmountFault::Empty => "empty size"@,
            AmountFault::Count(reason) => "invalid size count in "@ + raw + ": "@ + reason,
            AmountFault::Overflow => "size overflow in "@ + raw,
        }
    }
}

impl AmountError {
    /// The error's text.
    pub open spec fn text(self) -> Seq<char> {
        match self {
            AmountError::EmptyDuration => AmountFault::Empty.duration_text(Seq::empty()),
            AmountError::DurationCount { raw, reason } => AmountFault::Count(
                reason@,
            ).duration_text(raw@),
            AmountError::DurationOverflow { raw } => AmountFault::Overflow.duration_text(raw@),
            AmountError::EmptySize => AmountFault::Empty.size_text(Seq::empty()),
            AmountError::SizeCount { raw, reason } => AmountFault::Count(reason@).size_text(raw@),
            AmountError::SizeOverflow { raw } => AmountFault::Overflow.size_text(raw@),
        }
    }

    /// Whether this is `fault` in the duration `raw`.
    pub open spec fn in_duration(self, fault: AmountFault, raw: Seq<char>) -> bool {
        match fault {
            AmountFault::Empty => self is EmptyDuration,
            AmountFault::Count(why) => self matches AmountError::DurationCount {
                raw: r,
                reason,
            } && r@ == raw && reason@ == why,
            AmountFault::Overflow => self matches AmountError::DurationOverflow { raw: r } && r@
                == raw,
        }
    }

    /// Whether this is `fault` in the size `raw`.
    pub open spec fn in_size(self, fault: AmountFault, raw: Seq<char>) -> bool {
        match fault {
            AmountFault::Empty => self is EmptySize,
            AmountFault::Count(why) => self matches AmountError::SizeCount { raw: r, reason } && r@
                == raw && reason@ == why,
            AmountFault::Overflow => self matches AmountError::SizeOverflow { raw: r } && r@ == raw,
        }
    }

    /// The error's text.
    pub fn message(&self) -> (r: String)
        ensures
            r@ == self.text(),
    {
        match self {
            AmountError::EmptyDuration => "empty duration".to_owned(),
            AmountError::DurationCount { raw, reason } => {
                let mut m: String = "invalid duration count in ".to_owned();
                m.append(raw.as_str());
                m.append(": ");
                m.append(reason.as_str());
                m
            },
            AmountError::DurationOverflow { raw } => {
                let mut m: String = "duration overflow in ".to_owned();
                m.append(raw.as_str());
                m
            },
            AmountError::EmptySize => "empty size".to_owned(),
            AmountError::SizeCount { raw, reason } => {
                let mut m: String = "invalid size count in ".to_owned();
                m.append(raw.as_str());
                m.append(": ");
                m.append(reason.as_str());
                m
            },
            AmountError::SizeOverflow { raw } => {
                let mut m: String = "size overflow in ".to_owned();
                m.append(raw.as_str());
                m
            },
        }
    }
}

/// The seconds a duration unit stands for.
pub open spec fn unit_secs(unit: char) -> Option<i64> {
    if unit == 's' {
        Some(1)
    } else if unit == 'm' {
        Some(SECS_PER_MINUTE)
    } else if unit == 'h' {
        Some(SECS_PER_HOUR)
    } else if unit == 'd' {
        Some(SECS_PER_DAY)
    } else if unit == 'w' {
        Some(SECS_PER_WEEK)
    } else {
        None
    }
}

/// The amount that a count stands for, `unit` being one of it.
pub open spec fn amount(count: Seq<char>, unit: i64) -> Result<i64, AmountFault> {
    let digits = text::trimmed(count);
    match text::i64_spelled(digits) {
        None => Err(AmountFault::Count(text::i64_refusal(digits))),
        Some(n) => if i64::MIN <= n * unit <= i64::MAX {
            Ok((n * unit) as i64)
        } else {
            Err(AmountFault::Overflow)
        },
    }
}

/// The seconds that a duration stands for: a count, in seconds unless a unit
/// follows.
pub open spec fn duration(raw: Seq<char>) -> Result<i64, AmountFault> {
    let trimmed = text::trimmed(raw);
    if trimmed.len() == 0 {
        Err(AmountFault::Empty)
    } else {
        match unit_secs(trimmed.last()) {
            Some(secs) => amount(trimmed.drop_last(), secs),
            None => amount(trimmed, 1),
        }
    }
}

/// The bytes that the unit at the end of an upper-case size stands for, and how
/// many characters it takes up.
pub open spec fn size_unit(upper: Seq<char>) -> (i64, int) {
    if seq!['T', 'B'].is_suffix_of(upper) {
        (BYTES_PER_TIB, 2)
    } else if seq!['G', 'B'].is_suffix_of(upper) {
        (BYTES_PER_GIB, 2)
    } else if seq!['M', 'B'].is_suffix_of(upper) {
        (BYTES_PER_MIB, 2)
    } else if seq!['K', 'B'].is_suffix_of(upper) {
        (BYTES_PER_KIB, 2)
    } else if seq!['B'].is_suffix_of(upper) {
        (1, 1)
    } else {
        (1, 0)
    }
}

/// The bytes that a size stands for: a count, in bytes unless a binary unit
/// follows, in either case of letters.
pub open spec fn size(raw: Seq<char>) -> Result<i64, AmountFault> {
    let trimmed = text::trimmed(raw);
    if trimmed.len() == 0 {
        Err(AmountFault::Empty)
    } else {
        let upper = trimmed.map_values(|c: char| text::ascii_upper(c));
        let (unit, width) = size_unit(upper);
        amount(upper.take(upper.len() - width), unit)
    }
}

/// The amount that a count stands for, `unit` being one of it.
fn counted(count: &[char], unit: i64) -> (r: Result<i64, Option<String>>)
    requires
        unit >= 1,
    ensures
        match r {
            Ok(n) => amount(count@, unit) == Ok::<i64, AmountFault>(n),
            Err(Some(reason)) => amount(count@, unit) == Err::<i64, AmountFault>(
                AmountFault::Count(reason@),
            ),
            Err(None) => amount(count@, unit) == Err::<i64, AmountFault>(AmountFault::Overflow),
        },
{
    let digits: Vec<char> = text::trim(count);
    let digits: String = text::string_of(digits.as_slice());
    match text::parse_i64(digits.as_str()) {
        Err(reason) => Err(Some(reason)),
        Ok(n) => match n.checked_mul(unit) {
            Some(product) => Ok(product),
            None => Err(None),
        },
    }
}

/// Reads a duration into whole seconds.
pub fn parse_duration_secs(raw: &str) -> (r: Result<i64, AmountError>)
    ensures
        match r {
            Ok(secs) => duration(raw@) == Ok::<i64, AmountFault>(secs),
            Err(error) => duration(raw@) matches Err(fault) && error.in_duration(fault, raw@),
        },
{
    let chars: Vec<char> = text::chars_of(raw);
    let trimmed: Vec<char> = text::trim(chars.as_slice());
    let n: usize = trimmed.len();
    if n == 0 {
        return Err(AmountError::EmptyDuration);
    }
    let unit: char = trimmed[n - 1];
    let secs: Option<i64> = if unit == 's' {
        Some(1)
    } else if unit == 'm' {
        Some(SECS_PER_MINUTE)
    } else if unit == 'h' {
        Some(SECS_PER_HOUR)
    } else if unit == 'd' {
        Some(SECS_PER_DAY)
    } else if unit == 'w' {
        Some(SECS_PER_WEEK)
    } else {
        None
    };
    let outcome: Result<i64, Option<String>> = match secs {
        Some(secs) => {
            let count: Vec<char> = text::copy_range(trimmed.as_slice(), 0, n - 1);
            assert(count@ == trimmed@.drop_last());
            counted(count.as_slice(), secs)
        },
        None => counted(trimmed.as_slice(), 1),
    };
    match outcome {
        Ok(secs) => Ok(secs),
        Err(Some(reason)) => Err(AmountError::DurationCount { raw: raw.to_owned(), reason }),
        Err(None) => Err(AmountError::DurationOverflow { raw: raw.to_owned() }),
    }
}

/// Reads a size into bytes.
pub fn parse_size_bytes(raw: &str) -> (r: Result<i64, AmountError>)
    ensures
        match r {
            Ok(bytes) => size(raw@) == Ok::<i64, AmountFault>(bytes),
            Err(error) => size(raw@) matches Err(fault) && error.in_size(fault, raw@),
        },
{
    let chars: Vec<char> = text::chars_of(raw);
    let trimmed: Vec<char> = text::trim(chars.as_slice());
    if trimmed.len() == 0 {
        return Err(AmountError::EmptySize);
    }
    let upper: Vec<char> = text::to_ascii_upper(trimmed.as_slice());
    let tb: [char; 2] = ['T', 'B'];
    let gb: [char; 2] = ['G', 'B'];
    let mb: [char; 2] = ['M', 'B'];
    let kb: [char; 2] = ['K', 'B'];
    let b: [char; 1] = ['B'];
    assert(tb@ == seq!['T', 'B']);
    assert(gb@ == seq!['G', 'B']);
    assert(mb@ == seq!['M', 'B']);
    assert(kb@ == seq!['K', 'B']);
    assert(b@ == seq!['B']);
    let (unit, width): (i64, usize) = if text::ends_with(upper.as_slice(), tb.as_slice()) {
        (BYTES_PER_TIB, 2)
    } else if text::ends_with(upper.as_slice(), gb.as_slice()) {
        (BYTES_PER_GIB, 2)
    } else if text::ends_with(upper.as_slice(), mb.as_slice()) {
        (BYTES_PER_MIB, 2)
    } else if text::ends_with(upper.as_slice(), kb.as_slice()) {
        (BYTES_PER_KIB, 2)
    } else if text::ends_with(upper.as_slice(), b.as_slice()) {
        (1, 1)
    } else {
        (1, 0)
    };
    let count: Vec<char> = text::copy_range(upper.as_slice(), 0, upper.len() - width);
    assert(count@ == upper@.take(upper@.len() - width));
    match counted(count.as_slice(), unit) {
        Ok(bytes) => Ok(bytes),
        Err(Some(reason)) => Err(AmountError::SizeCount { raw: raw.to_owned(), reason }),
        Err(None) => Err(AmountError::SizeOverflow { raw: raw.to_owned() }),
    }
}

/// Decimal digits are no white space.
proof fn lemma_digits_stand(n: nat)
    ensures
        text::digits(n).len() > 0,
        text::all_digits(text::digits(n)),
        text::digits_value(text::digits(n)) == n,
    decreases n,
{
    let s = text::digits(n);
    if n >= 10 {
        lemma_digits_stand(n / 10);
        assert(s.drop_last() == text::digits(n / 10));
        assert(s.last() as int == '0' as int + (n % 10));
    } else {
        assert(s.drop_last() == Seq::<char>::empty());
        assert(text::digits_value(s.drop_last()) == 0);
        assert(s.last() as int == '0' as int + n);
    }
}

/// A text that neither begins nor ends in white space is its own trimming.
proof fn lemma_nothing_to_trim(s: Seq<char>)
    requires
        s.len() > 0,
        !text::white_space(s[0]),
        !text::white_space(s.last()),
    ensures
        text::trimmed(s) == s,
{
}

/// A count in decimal digits followed by a unit is read as that many of the unit,
/// as long as the seconds fit.
pub proof fn law_a_count_of_units_is_read(n: nat, unit: char)
    requires
        unit_secs(unit) is Some,
        n * unit_secs(unit).unwrap() <= i64::MAX,
    ensures
        duration(text::digits(n).push(unit)) == Ok::<i64, AmountFault>(
            (n * unit_secs(unit).unwrap()) as i64,
        ),
{
    let digits = text::digits(n);
    let raw = digits.push(unit);
    let secs = unit_secs(unit).unwrap();
    lemma_digits_stand(n);
    assert('0' <= digits[0] <= '9');
    assert('0' <= digits.last() <= '9');
    assert(raw[0] == digits[0]);
    lemma_nothing_to_trim(raw);
    assert(raw.drop_last() == digits);
    lemma_nothing_to_trim(digits);
    assert(n <= n * secs) by (nonlinear_arith)
        requires
            secs >= 1,
    ;
    assert(text::int_spelled(digits) == Some(n as int));
}

/// A rule path rooted under a folder.
pub open spec fn rooted(folder: Seq<char>, rule_path: Seq<char>) -> Seq<char> {
    text::trim_end(folder, '/') + seq!['/'] + text::trim_start(rule_path, '/')
}

/// Roots a rule path under a folder. A leading `/` of the rule path does not lead
/// out of the folder.
pub fn root_under(folder: &str, rule_path: &str) -> (r: String)
    ensures
        r@ == rooted(folder@, rule_path@),
{
    let base: Vec<char> = text::chars_of(folder);
    let rule: Vec<char> = text::chars_of(rule_path);
    let end: usize = text::trimmed_len(base.as_slice(), '/');
    let start: usize = text::leading_run(rule.as_slice(), '/');
    let mut path: Vec<char> = text::copy_range(base.as_slice(), 0, end);
    path.push('/');
    let mut rest: Vec<char> = text::copy_range(rule.as_slice(), start, rule.len());
    path.append(&mut rest);
    assert(path@ =~= rooted(folder@, rule_path@));
    text::string_of(path.as_slice())
}

/// Why a config push is refused.
#[derive(Debug)]
pub enum ConfigPushError {
    /// A rule leads out of the folder the push is authorised over.
    Escapes {
        /// The rule's path as written.
        rule_path: String,
        /// The folder.
        folder: String,
        /// The rule's path rooted under the folder.
        rooted: String,
    },
    /// A policy's duration or size cannot be read.
    Amount(AmountError),
}

/// The text with which an escaping rule is refused.
pub open spec fn escape_text(rule_path: Seq<char>, folder: Seq<char>, path: Seq<char>) -> Seq<
    char,
> {
    "config push rule path "@ + command::debug_quoted(rule_path)
        + " escapes the authorised folder "@ + command::debug_quoted(folder) + " (resolved to "@
        + command::debug_quoted(path) + "); the whole push is refused"@
}

impl ConfigPushError {
    /// The error's text.
    pub open spec fn text(self) -> Seq<char> {
        match self {
            ConfigPushError::Escapes { rule_path, folder, rooted } => escape_text(
                rule_path@,
                folder@,
                rooted@,
            ),
            ConfigPushError::Amount(error) => error.text(),
        }
    }

    /// Whether this is `fault` in a push into `folder`.
    pub open spec fn is(self, fault: PushFault, folder: Seq<char>) -> bool {
        match fault {
            PushFault::Escapes(rule) => self matches ConfigPushError::Escapes {
                rule_path,
                folder: f,
                rooted: path,
            } && rule_path@ == rule && f@ == folder && path@ == rooted(folder, rule),
            PushFault::Duration(raw, fault) => self matches ConfigPushError::Amount(error)
                && error.in_duration(fault, raw),
            PushFault::Size(raw, fault) => self matches ConfigPushError::Amount(error)
                && error.in_size(fault, raw),
        }
    }

    /// The error's text.
    pub fn message(&self) -> (r: String)
        ensures
            r@ == self.text(),
    {
        match self {
            ConfigPushError::Escapes { rule_path, folder, rooted } => {
                let mut m: String = "config push rule path ".to_owned();
                m.append(command::debug_str(rule_path.as_str()).as_str());
                m.append(" escapes the authorised folder ");
                m.append(command::debug_str(folder.as_str()).as_str());
                m.append(" (resolved to ");
                m.append(command::debug_str(rooted.as_str()).as_str());
                m.append("); the whole push is refused");
                m
            },
            ConfigPushError::Amount(error) => error.message(),
        }
    }
}

/// What is wrong with a config push, over texts.
#[verifier::ext_equal]
pub enum PushFault {
    /// The rule with this path leads out of the folder.
    Escapes(Seq<char>),
    /// This duration cannot be read.
    Duration(Seq<char>, AmountFault),
    /// This size cannot be read.
    Size(Seq<char>, AmountFault),
}

/// Whether a rule's path, rooted under `folder`, stays where `scope` reaches.
pub open spec fn confined(folder: Seq<char>, rule_path: Seq<char>, scope: ScopeView) -> bool {
    scope.covers(ScopeView::Folder(rooted(folder, rule_path)))
}

/// Roots a rule's path under `folder`, refusing one that leads out of the scope.
pub fn confine_rule_path(folder: &str, rule_path: &str, folder_scope: &Scope) -> (r: Result<
    String,
    ConfigPushError,
>)
    ensures
        match r {
            Ok(path) => confined(folder@, rule_path@, folder_scope@) && path@ == rooted(
                folder@,
                rule_path@,
            ),
            Err(error) => !confined(folder@, rule_path@, folder_scope@) && error.is(
                PushFault::Escapes(rule_path@),
                folder@,
            ),
        },
{
    let path: String = root_under(folder, rule_path);
    if folder_scope.covers(&Scope::folder(path.as_str())) {
        Ok(path)
    } else {
        Err(
            ConfigPushError::Escapes {
                rule_path: rule_path.to_owned(),
                folder: folder.to_owned(),
                rooted: path,
            },
        )
    }
}

/// A lifecycle policy as a config fragment writes it.
#[derive(Debug)]
pub struct PolicyRule {
    /// The path it is for.
    pub path: String,
    /// The age limit, a duration.
    pub max_age: Option<String>,
    /// The size limit, a size.
    pub max_file_size: Option<String>,
    /// Its priority.
    pub priority: i32,
}

/// The rules of a config fragment.
#[derive(Debug)]
pub struct ConfigFragment {
    /// The paths to pin.
    pub pins: Vec<String>,
    /// The lifecycle policies.
    pub lifecycle: Vec<PolicyRule>,
}

/// A lifecycle policy to store.
#[derive(Debug)]
pub struct PolicyInput {
    /// The path it is for.
    pub path: String,
    /// The age limit in seconds.
    pub max_age: Option<i64>,
    /// The size limit in bytes.
    pub max_file_size: Option<i64>,
    /// Its priority.
    pub priority: i32,
}

/// A lifecycle policy to store, over texts.
#[verifier::ext_equal]
pub struct PolicyView {
    /// The path it is for.
    pub path: Seq<char>,
    /// The age limit in seconds.
    pub max_age: Option<i64>,
    /// The size limit in bytes.
    pub max_file_size: Option<i64>,
    /// Its priority.
    pub priority: i32,
}

impl View for PolicyInput {
    type V = PolicyView;

    open spec fn view(&self) -> PolicyView {
        PolicyView {
            path: self.path@,
            max_age: self.max_age,
            max_file_size: self.max_file_size,
            priority: self.priority,
        }
    }
}

/// The rules to store for a push: the paths to pin, all of them recursively, and
/// the lifecycle policies.
#[derive(Debug)]
pub struct ConfigPushPlan {
    /// The paths to pin.
    pub pins: Vec<String>,
    /// The lifecycle policies.
    pub policies: Vec<PolicyInput>,
}

/// The pins of a push into `folder`, or the first that leads out of it.
pub open spec fn planned_pins(folder: Seq<char>, pins: Seq<String>) -> Result<
    Seq<Seq<char>>,
    PushFault,
>
    decreases pins.len(),
{
    if pins.len() == 0 {
        Ok(Seq::empty())
    } else {
        match planned_pins(folder, pins.drop_last()) {
            Err(fault) => Err(fault),
            Ok(paths) => if confined(folder, pins.last()@, ScopeView::Folder(folder)) {
                Ok(paths.push(rooted(folder, pins.last()@)))
            } else {
                Err(PushFault::Escapes(pins.last()@))
            },
        }
    }
}

/// The limit that an optional duration sets.
pub open spec fn planned_age(raw: Option<String>) -> Result<Option<i64>, PushFault> {
    match raw {
        None => Ok(None),
        Some(raw) => match duration(raw@) {
            Ok(secs) => Ok(Some(secs)),
            Err(fault) => Err(PushFault::Duration(raw@, fault)),
        },
    }
}

/// The limit that an optional size sets.
pub open spec fn planned_size(raw: Option<String>) -> Result<Option<i64>, PushFault> {
    match raw {
        None => Ok(None),
        Some(raw) => match size(raw@) {
            Ok(bytes) => Ok(Some(bytes)),
            Err(fault) => Err(PushFault::Size(raw@, fault)),
        },
    }
}

/// A policy of a push into `folder`, or the first thing wrong with it.
pub open spec fn planned_policy(folder: Seq<char>, rule: PolicyRule) -> Result<
    PolicyView,
    PushFault,
> {
    if !confined(folder, rule.path@, ScopeView::Folder(folder)) {
        Err(PushFault::Escapes(rule.path@))
    } else {
        match (planned_age(rule.max_age), planned_size(rule.max_file_size)) {
            (Err(fault), _) => Err(fault),
            (Ok(_), Err(fault)) => Err(fault),
            (Ok(max_age), Ok(max_file_size)) => Ok(
                PolicyView {
                    path: rooted(folder, rule.path@),
                    max_age,
                    max_file_size,
                    priority: rule.priority,
                },
            ),
        }
    }
}

/// The policies of a push into `folder`, or the first thing wrong with them.
pub open spec fn planned_policies(folder: Seq<char>, rules: Seq<PolicyRule>) -> Result<
    Seq<PolicyView>,
    PushFault,
>
    decreases rules.len(),
{
    if rules.len() == 0 {
        Ok(Seq::empty())
    } else {
        match planned_policies(folder, rules.drop_last()) {
            Err(fault) => Err(fault),
            Ok(policies) => match planned_policy(folder, rules.last()) {
                Err(fault) => Err(fault),
                Ok(policy) => Ok(policies.push(policy)),
            },
        }
    }
}

/// The policies held by a sequence of policies to store.
pub open spec fn policy_views(policies: Seq<PolicyInput>) -> Seq<PolicyView> {
    policies.map_values(|p: PolicyInput| p@)
}

/// Once a pin is refused, no later one mends it.
proof fn lemma_pins_refused(folder: Seq<char>, pins: Seq<String>, n: int)
    requires
        0 <= n <= pins.len(),
        planned_pins(folder, pins.take(n)) is Err,
    ensures
        planned_pins(folder, pins) == planned_pins(folder, pins.take(n)),
    decreases pins.len() - n,
{
    if n == pins.len() {
        assert(pins.take(n) == pins);
    } else {
        assert(pins.take(n + 1).drop_last() == pins.take(n));
        lemma_pins_refused(folder, pins, n + 1);
    }
}

/// Once a policy is refused, no later one mends it.
proof fn lemma_policies_refused(folder: Seq<char>, rules: Seq<PolicyRule>, n: int)
    requires
        0 <= n <= rules.len(),
        planned_policies(folder, rules.take(n)) is Err,
    ensures
        planned_policies(folder, rules) == planned_policies(folder, rules.take(n)),
    decreases rules.len() - n,
{
    if n == rules.len() {
        assert(rules.take(n) == rules);
    } else {
        assert(rules.take(n + 1).drop_last() == rules.take(n));
        lemma_policies_refused(folder, rules, n + 1);
    }
}

/// The pins of a push.
fn plan_pins(folder: &str, pins: &Vec<String>) -> (r: Result<Vec<String>, ConfigPushError>)
    ensures
        match r {
            Ok(paths) => planned_pins(folder@, pins@) == Ok::<Seq<Seq<char>>, PushFault>(
                text::texts(paths@),
            ),
            Err(error) => planned_pins(folder@, pins@) matches Err(fault) && error.is(
                fault,
                folder@,
            ),
        },
{
    let scope: Scope = Scope::folder(folder);
    let mut paths: Vec<String> = Vec::new();
    let mut i: usize = 0;
    assert(pins@.take(0) == Seq::<String>::empty());
    assert(text::texts(paths@) == Seq::<Seq<char>>::empty());
    while i < pins.len()
        invariant
            i <= pins@.len(),
            scope@ == ScopeView::Folder(folder@),
            planned_pins(folder@, pins@.take(i as int)) == Ok::<Seq<Seq<char>>, PushFault>(
                text::texts(paths@),
            ),
        decreases pins@.len() - i,
    {
        let ghost before = paths@;
        assert(pins@.take(i + 1).drop_last() == pins@.take(i as int));
        assert(pins@.take(i + 1).last() == pins@[i as int]);
        match confine_rule_path(folder, pins[i].as_str(), &scope) {
            Ok(path) => {
                paths.push(path);
                assert(text::texts(paths@) == text::texts(before).push(path@));
            },
            Err(error) => {
                proof {
                    lemma_pins_refused(folder@, pins@, i + 1);
                }
                return Err(error);
            },
        }
        i += 1;
    }
    assert(pins@.take(i as int) == pins@);
    Ok(paths)
}

/// One policy of a push.
fn plan_policy(folder: &str, rule: &PolicyRule, scope: &Scope) -> (r: Result<
    PolicyInput,
    ConfigPushError,
>)
    requires
        scope@ == ScopeView::Folder(folder@),
    ensures
        match r {
            Ok(policy) => planned_policy(folder@, *rule) == Ok::<PolicyView, PushFault>(policy@),
            Err(error) => planned_policy(folder@, *rule) matches Err(fault) && error.is(
                fault,
                folder@,
            ),
        },
{
    let path: String = match confine_rule_path(folder, rule.path.as_str(), scope) {
        Ok(path) => path,
        Err(error) => {
            return Err(error);
        },
    };
    let max_age: Option<i64> = match &rule.max_age {
        None => None,
        Some(raw) => match parse_duration_secs(raw.as_str()) {
            Ok(secs) => Some(secs),
            Err(error) => {
                return Err(ConfigPushError::Amount(error));
            },
        },
    };
    let max_file_size: Option<i64> = match &rule.max_file_size {
        None => None,
        Some(raw) => match parse_size_bytes(raw.as_str()) {
            Ok(bytes) => Some(bytes),
            Err(error) => {
                return Err(ConfigPushError::Amount(error));
            },
        },
    };
    Ok(PolicyInput { path, max_age, max_file_size, priority: rule.priority })
}

/// The policies of a push.
fn plan_policies(folder: &str, rules: &Vec<PolicyRule>) -> (r: Result<
    Vec<PolicyInput>,
    ConfigPushError,
>)
    ensures
        match r {
            Ok(policies) => planned_policies(folder@, rules@) == Ok::<Seq<PolicyView>, PushFault>(
                policy_views(policies@),
            ),
            Err(error) => planned_policies(folder@, rules@) matches Err(fault) && error.is(
                fault,
                folder@,
            ),
        },
{
    let scope: Scope = Scope::folder(folder);
    let mut policies: Vec<PolicyInput> = Vec::new();
    let mut i: usize = 0;
    assert(rules@.take(0) == Seq::<PolicyRule>::empty());
    assert(policy_views(policies@) == Seq::<PolicyView>::empty());
    while i < rules.len()
        invariant
            i <= rules@.len(),
            scope@ == ScopeView::Folder(folder@),
            planned_policies(folder@, rules@.take(i as int)) == Ok::<Seq<PolicyView>, PushFault>(
                policy_views(policies@),
            ),
        decreases rules@.len() - i,
    {
        let ghost before = policies@;
        assert(rules@.take(i + 1).drop_last() == rules@.take(i as int));
        assert(rules@.take(i + 1).last() == rules@[i as int]);
        match plan_policy(folder, &rules[i], &scope) {
            Ok(policy) => {
                policies.push(policy);
                assert(policy_views(policies@) == policy_views(before).push(policy@));
            },
            Err(error) => {
                proof {
                    lemma_policies_refused(folder@, rules@, i + 1);
                }
                return Err(error);
            },
        }
        i += 1;
    }
    assert(rules@.take(i as int) == rules@);
    Ok(policies)
}

/// What a config push into `folder` stores: every rule rooted under the folder, or
/// nothing at all where one of them leads out of it or cannot be read. Pins are
/// looked at before policies.
pub fn config_push(folder: &str, config: &ConfigFragment) -> (r: Result<
    ConfigPushPlan,
    ConfigPushError,
>)
    ensures
        match r {
            Ok(plan) => planned_pins(folder@, config.pins@) == Ok::<Seq<Seq<char>>, PushFault>(
                text::texts(plan.pins@),
            ) && planned_policies(folder@, config.lifecycle@) == Ok::<Seq<PolicyView>, PushFault>(
                policy_views(plan.policies@),
            ),
            Err(error) => match planned_pins(folder@, config.pins@) {
                Err(fault) => error.is(fault, folder@),
                Ok(_) => planned_policies(folder@, config.lifecycle@) matches Err(fault)
                    && error.is(fault, folder@),
            },
        },
{
    let pins: Vec<String> = match plan_pins(folder, &config.pins) {
        Ok(pins) => pins,
        Err(error) => {
            return Err(error);
        },
    };
    match plan_policies(folder, &config.lifecycle) {
        Ok(policies) => Ok(ConfigPushPlan { pins, policies }),
        Err(error) => Err(error),
    }
}

/// The text that reports a config push.
pub open spec fn config_push_text(folder: Seq<char>, pins: int, policies: int) -> Seq<char> {
    "config push into "@ + folder + ": "@ + text::decimal(pins) + " pin rule(s), "@
        + text::decimal(policies) + " lifecycle policy/policies applied"@
}

/// The text that reports a config push.
pub fn config_push_summary(folder: &str, plan: &ConfigPushPlan) -> (r: String)
    ensures
        r@ == config_push_text(folder@, plan.pins@.len() as int, plan.policies@.len() as int),
{
    let mut m: String = "config push into ".to_owned();
    m.append(folder);
    m.append(": ");
    m.append(text::u64_text(plan.pins.len() as u64).as_str());
    m.append(" pin rule(s), ");
    m.append(text::u64_text(plan.policies.len() as u64).as_str());
    m.append(" lifecycle policy/policies applied");
    m
}

/// A push that is carried out plants no rule outside its folder, and none of the
/// fragment's rules is left out.
pub proof fn law_a_push_stays_inside_its_folder(folder: Seq<char>, pins: Seq<String>, i: int)
    requires
        planned_pins(folder, pins) is Ok,
        0 <= i < pins.len(),
    ensures
        planned_pins(folder, pins)->Ok_0.len() == pins.len(),
        planned_pins(folder, pins)->Ok_0[i] == rooted(folder, pins[i]@),
        ScopeView::Folder(folder).covers(
            ScopeView::Folder(planned_pins(folder, pins)->Ok_0[i]),
        ),
    decreases pins.len(),
{
    let fewer = pins.drop_last();
    if fewer.len() > 0 {
        law_a_push_stays_inside_its_folder(
            folder,
            fewer,
            if i < fewer.len() {
                i
            } else {
                0
            },
        );
    } else {
        assert(planned_pins(folder, fewer) == Ok::<Seq<Seq<char>>, PushFault>(Seq::empty()));
    }
}

/// The same of the policies of a push.
pub proof fn law_pushed_policies_stay_inside_the_folder(
    folder: Seq<char>,
    rules: Seq<PolicyRule>,
    i: int,
)
    requires
        planned_policies(folder, rules) is Ok,
        0 <= i < rules.len(),
    ensures
        planned_policies(folder, rules)->Ok_0.len() == rules.len(),
        planned_policies(folder, rules)->Ok_0[i].path == rooted(folder, rules[i].path@),
        planned_policies(folder, rules)->Ok_0[i].priority == rules[i].priority,
        ScopeView::Folder(folder).covers(
            ScopeView::Folder(planned_policies(folder, rules)->Ok_0[i].path),
        ),
    decreases rules.len(),
{
    let fewer = rules.drop_last();
    if fewer.len() > 0 {
        law_pushed_policies_stay_inside_the_folder(
            folder,
            fewer,
            if i < fewer.len() {
                i
            } else {
                0
            },
        );
    } else {
        assert(planned_policies(folder, fewer) == Ok::<Seq<PolicyView>, PushFault>(Seq::empty()));
    }
}

/// One rule that leads out of the folder refuses the whole push.
pub proof fn law_one_escaping_rule_refuses_the_push(folder: Seq<char>, pins: Seq<String>, i: int)
    requires
        0 <= i < pins.len(),
        !confined(folder, pins[i]@, ScopeView::Folder(folder)),
    ensures
        planned_pins(folder, pins) is Err,
    decreases pins.len(),
{
    if i < pins.len() - 1 {
        law_one_escaping_rule_refuses_the_push(folder, pins.drop_last(), i);
    }
}

/// One policy that leads out of the folder, or cannot be read, refuses the whole
/// push.
pub proof fn law_one_bad_policy_refuses_the_push(
    folder: Seq<char>,
    rules: Seq<PolicyRule>,
    i: int,
)
    requires
        0 <= i < rules.len(),
        planned_policy(folder, rules[i]) is Err,
    ensures
        planned_policies(folder, rules) is Err,
    decreases rules.len(),
{
    if i < rules.len() - 1 {
        law_one_bad_policy_refuses_the_push(folder, rules.drop_last(), i);
    }
}

/// In a push that is carried out each stored policy has the limits that its rule
/// writes: no age limit where the rule has none, and else the seconds that the
/// rule's duration stands for; no size limit where the rule has none, and else the
/// bytes that its size stands for.
pub proof fn law_a_pushed_policy_has_its_rules_limits(
    folder: Seq<char>,
    rules: Seq<PolicyRule>,
    i: int,
)
    requires
        planned_policies(folder, rules) is Ok,
        0 <= i < rules.len(),
    ensures
        ({
            let policy = planned_policies(folder, rules)->Ok_0[i];
            &&& match rules[i].max_age {
                None => policy.max_age is None,
                Some(raw) => policy.max_age matches Some(secs) && duration(raw@) == Ok::<
                    i64,
                    AmountFault,
                >(secs),
            }
            &&& match rules[i].max_file_size {
                None => policy.max_file_size is None,
                Some(raw) => policy.max_file_size matches Some(bytes) && size(raw@) == Ok::<
                    i64,
                    AmountFault,
                >(bytes),
            }
        }),
    decreases rules.len(),
{
    let fewer = rules.drop_last();
    if fewer.len() > 0 {
        law_pushed_policies_stay_inside_the_folder(folder, fewer, 0);
    } else {
        assert(planned_policies(folder, fewer) == Ok::<Seq<PolicyView>, PushFault>(Seq::empty()));
    }
    if i < fewer.len() {
        assert(fewer[i] == rules[i]);
        law_a_pushed_policy_has_its_rules_limits(folder, fewer, i);
    }
}

/// A push is carried out where all of its rules stay inside the folder and all of
/// their durations and sizes can be read.
pub proof fn law_a_sound_push_is_carried_out(
    folder: Seq<char>,
    pins: Seq<String>,
    rules: Seq<PolicyRule>,
)
    requires
        forall|i: int|
            0 <= i < pins.len() ==> ScopeView::Folder(folder).covers(
                ScopeView::Folder(rooted(folder, #[trigger] pins[i]@)),
            ),
        forall|i: int|
            0 <= i < rules.len() ==> ScopeView::Folder(folder).covers(
                ScopeView::Folder(rooted(folder, (#[trigger] rules[i]).path@)),
            ) && (rules[i].max_age matches Some(raw) ==> duration(raw@) is Ok) && (
            rules[i].max_file_size matches Some(raw) ==> size(raw@) is Ok),
    ensures
        planned_pins(folder, pins) is Ok,
        planned_policies(folder, rules) is Ok,
    decreases pins.len() + rules.len(),
{
    if pins.len() > 0 {
        let fewer = pins.drop_last();
        assert forall|i: int| 0 <= i < fewer.len() implies ScopeView::Folder(folder).covers(
            ScopeView::Folder(rooted(folder, #[trigger] fewer[i]@)),
        ) by {
            assert(fewer[i] == pins[i]);
        }
        law_a_sound_push_is_carried_out(folder, fewer, rules);
        assert(pins.last() == pins[pins.len() - 1]);
    } else if rules.len() > 0 {
        let fewer = rules.drop_last();
        assert forall|i: int| 0 <= i < fewer.len() implies ScopeView::Folder(folder).covers(
            ScopeView::Folder(rooted(folder, (#[trigger] fewer[i]).path@)),
        ) && (fewer[i].max_age matches Some(raw) ==> duration(raw@) is Ok) && (
        fewer[i].max_file_size matches Some(raw) ==> size(raw@) is Ok) by {
            assert(fewer[i] == rules[i]);
        }
        law_a_sound_push_is_carried_out(folder, pins, fewer);
        assert(rules.last() == rules[rules.len() - 1]);
    }
}

/// Sixty seconds make a minute, sixty minutes an hour, twenty-four hours a day and
/// seven days a week; there are no other units of time.
pub proof fn law_units_of_time_nest(unit: char)
    ensures
        unit_secs('s') == Some(1i64),
        unit_secs('m') matches Some(minute) && minute == 60,
        unit_secs('h') matches Some(hour) && hour == 60 * 60,
        unit_secs('d') matches Some(day) && day == 24 * 60 * 60,
        unit_secs('w') matches Some(week) && week == 7 * 24 * 60 * 60,
        unit_secs(unit) is Some ==> unit == 's' || unit == 'm' || unit == 'h' || unit == 'd' || unit
            == 'w',
{
}

/// A count in decimal digits without a unit is read as that many seconds.
pub proof fn law_a_bare_count_is_read_as_seconds(n: nat)
    requires
        n <= i64::MAX,
    ensures
        duration(text::digits(n)) == Ok::<i64, AmountFault>(n as i64),
{
    let digits = text::digits(n);
    lemma_digits_stand(n);
    assert('0' <= digits[0] <= '9');
    assert('0' <= digits.last() <= '9');
    lemma_nothing_to_trim(digits);
    assert(text::int_spelled(digits) == Some(n as int));
}

/// A count in decimal digits followed by `B`, `KB`, `MB`, `GB` or `TB`, in either
/// case, or by nothing, is read as that many bytes, each unit being 1024 of the one
/// before, as long as the bytes fit.
pub proof fn law_a_count_of_bytes_is_read(n: nat, letters: Seq<char>, unit: nat)
    requires
        ({
            let upper = letters.map_values(|c: char| text::ascii_upper(c));
            ||| letters.len() == 0 && unit == 1
            ||| upper == seq!['B'] && unit == 1
            ||| upper == seq!['K', 'B'] && unit == 1024
            ||| upper == seq!['M', 'B'] && unit == 1024 * 1024
            ||| upper == seq!['G', 'B'] && unit == 1024 * 1024 * 1024
            ||| upper == seq!['T', 'B'] && unit == 1024 * 1024 * 1024 * 1024
        }),
        n * unit <= i64::MAX,
    ensures
        size(text::digits(n) + letters) == Ok::<i64, AmountFault>((n * unit) as i64),
{
    let digits = text::digits(n);
    let raw = digits + letters;
    let up = |c: char| text::ascii_upper(c);
    let upper = raw.map_values(up);
    let tail = letters.map_values(up);
    lemma_digits_stand(n);
    assert('0' <= digits[0] <= '9');
    assert('0' <= digits.last() <= '9');
    assert(raw[0] == digits[0]);
    assert(raw.last() == if letters.len() == 0 {
        digits.last()
    } else {
        letters.last()
    });
    if letters.len() > 0 {
        assert(tail.last() == text::ascii_upper(letters.last()));
        assert(tail.last() == 'B');
        assert(letters.last() == 'B' || letters.last() == 'b');
    }
    lemma_nothing_to_trim(raw);
    assert(digits.map_values(up) =~= digits) by {
        assert forall|i: int| 0 <= i < digits.len() implies text::ascii_upper(digits[i])
            == digits[i] by {
            assert('0' <= digits[i] <= '9');
        }
    }
    assert(upper =~= digits + tail);
    let m = upper.len() as int;
    assert(tail.len() == letters.len());
    lemma_unit_suffix(digits, tail);
    assert(upper.take(m - tail.len()) =~= digits);
    lemma_nothing_to_trim(digits);
    assert(n <= n * unit) by (nonlinear_arith)
        requires
            unit >= 1,
    ;
    assert(text::int_spelled(digits) == Some(n as int));
}

/// The unit behind digits is the one that the letters there spell.
proof fn lemma_unit_suffix(digits: Seq<char>, tail: Seq<char>)
    requires
        digits.len() > 0,
        text::all_digits(digits),
        tail.len() == 0 || tail == seq!['B'] || tail == seq!['K', 'B'] || tail == seq!['M', 'B']
            || tail == seq!['G', 'B'] || tail == seq!['T', 'B'],
    ensures
        size_unit(digits + tail) == (if tail.len() == 0 {
            (1i64, 0int)
        } else if tail == seq!['B'] {
            (1i64, 1int)
        } else if tail == seq!['K', 'B'] {
            (1024i64, 2int)
        } else if tail == seq!['M', 'B'] {
            (1048576i64, 2int)
        } else if tail == seq!['G', 'B'] {
            (1073741824i64, 2int)
        } else {
            (1099511627776i64, 2int)
        }),
{
    let s = digits + tail;
    let n = s.len() as int;
    assert('0' <= digits.last() <= '9');
    lemma_ends(s, seq!['T', 'B']);
    lemma_ends(s, seq!['G', 'B']);
    lemma_ends(s, seq!['M', 'B']);
    lemma_ends(s, seq!['K', 'B']);
    lemma_ends(s, seq!['B']);
    assert(s[n - 1] == if tail.len() == 0 {
        digits.last()
    } else {
        tail.last()
    });
    if n >= 2 {
        assert(tail.len() == 2 ==> s[n - 2] == tail[0]);
        assert(tail.len() == 1 ==> s[n - 2] == digits.last());
    }
    assert(seq!['K', 'B'][0] == 'K' && seq!['M', 'B'][0] == 'M' && seq!['G', 'B'][0] == 'G' && seq![
        'T',
        'B',
    ][0] == 'T');
    assert(seq!['B'].len() == 1 && seq!['K', 'B'].len() == 2 && seq!['M', 'B'].len() == 2 && seq![
        'G',
        'B',
    ].len() == 2 && seq!['T', 'B'].len() == 2);
}

/// A text ends in another of one or two characters where its last ones are those.
proof fn lemma_ends(s: Seq<char>, end: Seq<char>)
    requires
        1 <= end.len() <= 2,
    ensures
        end.is_suffix_of(s) <==> s.len() >= end.len() && s[s.len() - 1] == end.last() && (end.len()
            == 2 ==> s[s.len() - 2] == end[0]),
{
    let n = s.len() - end.len();
    if s.len() >= end.len() {
        let cut = s.subrange(n, s.len() as int);
        assert(cut.last() == s[s.len() - 1]);
        assert(cut[0] == s[n]);
        if s[s.len() - 1] == end.last() && (end.len() == 2 ==> s[s.len() - 2] == end[0]) {
            assert(cut =~= end);
        }
    }
}

/// An amount of nothing but white space is refused as empty.
pub proof fn law_a_blank_amount_is_refused(raw: Seq<char>)
    requires
        text::trimmed(raw).len() == 0,
    ensures
        duration(raw) == Err::<i64, AmountFault>(AmountFault::Empty),
        size(raw) == Err::<i64, AmountFault>(AmountFault::Empty),
{
}

/// An amount that can be read is a whole number of its unit: exactly the count's
/// value times the unit, and one that does not fit is refused.
pub proof fn law_an_amount_is_a_count_of_units(count: Seq<char>, unit: i64)
    requires
        unit >= 1,
    ensures
        amount(count, unit) matches Ok(total) ==> (text::i64_spelled(text::trimmed(count)) matches
            Some(n) && total == n * unit),
        text::i64_spelled(text::trimmed(count)) is None ==> amount(count, unit) matches Err(
            AmountFault::Count(_),
        ),
        text::i64_spelled(text::trimmed(count)) matches Some(n) ==> (amount(count, unit) is Ok
            <==> i64::MIN <= n * unit <= i64::MAX),
{
}

/// A rule path is rooted by putting the folder and a slash before it. Slashes at the
/// end of the folder and at the start of the rule path do not count, so none of
/// them leads out of the folder.
pub proof fn law_a_rule_path_goes_below_the_folder(folder: Seq<char>, rule: Seq<char>)
    ensures
        (folder.len() == 0 || folder.last() != '/') && (rule.len() == 0 || rule[0] != '/')
            ==> rooted(folder, rule) == folder + seq!['/'] + rule,
        rooted(folder.push('/'), rule) == rooted(folder, rule),
        rooted(folder, seq!['/'] + rule) == rooted(folder, rule),
{
    assert(folder.push('/').drop_last() == folder);
    assert((seq!['/'] + rule).skip(1) == rule);
}

/// The report of a push names the folder and counts the pins and the policies.
pub proof fn law_a_push_report_counts_its_rules(folder: Seq<char>, pins: int, policies: int)
    ensures
        exists|between: Seq<char>, after: Seq<char>|
            config_push_text(folder, pins, policies) == #[trigger] ("config push into "@ + folder
                + ": "@ + text::decimal(pins) + between + text::decimal(policies) + after),
{
    assert(config_push_text(folder, pins, policies) == "config push into "@ + folder + ": "@
        + text::decimal(pins) + " pin rule(s), "@ + text::decimal(policies)
        + " lifecycle policy/policies applied"@);
}

/// The first pin that leads out of the folder is the one that the refusal names.
pub proof fn law_the_first_escaping_pin_is_named(folder: Seq<char>, pins: Seq<String>, i: int)
    requires
        0 <= i < pins.len(),
        !ScopeView::Folder(folder).covers(ScopeView::Folder(rooted(folder, pins[i]@))),
        forall|k: int|
            0 <= k < i ==> ScopeView::Folder(folder).covers(
                ScopeView::Folder(rooted(folder, #[trigger] pins[k]@)),
            ),
    ensures
        planned_pins(folder, pins) == Err::<Seq<Seq<char>>, PushFault>(
            PushFault::Escapes(pins[i]@),
        ),
    decreases pins.len(),
{
    let fewer = pins.drop_last();
    if i < fewer.len() {
        assert(fewer[i] == pins[i]);
        assert forall|k: int| 0 <= k < i implies ScopeView::Folder(folder).covers(
            ScopeView::Folder(rooted(folder, #[trigger] fewer[k]@)),
        ) by {
            assert(fewer[k] == pins[k]);
        }
        law_the_first_escaping_pin_is_named(folder, fewer, i);
    } else {
        assert forall|k: int| 0 <= k < fewer.len() implies ScopeView::Folder(folder).covers(
            ScopeView::Folder(rooted(folder, #[trigger] fewer[k]@)),
        ) by {
            assert(fewer[k] == pins[k]);
        }
        law_a_sound_push_is_carried_out(folder, fewer, Seq::empty());
    }
}

/// What is wrong with a policy: that it leads out of the folder, else that its duration
/// cannot be read, else that its size cannot.
pub proof fn law_what_is_wrong_with_a_policy(folder: Seq<char>, rule: PolicyRule)
    ensures
        ({
            let inside = ScopeView::Folder(folder).covers(
                ScopeView::Folder(rooted(folder, rule.path@)),
            );
            let aged = rule.max_age matches Some(raw) ==> duration(raw@) is Ok;
            let sized = rule.max_file_size matches Some(raw) ==> size(raw@) is Ok;
            let plan = planned_policy(folder, rule);
            &&& plan is Ok <==> inside && aged && sized
            &&& !inside ==> plan == Err::<PolicyView, PushFault>(PushFault::Escapes(rule.path@))
            &&& inside && !aged ==> plan == Err::<PolicyView, PushFault>(
                PushFault::Duration(rule.max_age->0@, duration(rule.max_age->0@)->Err_0),
            )
            &&& inside && aged && !sized ==> plan == Err::<PolicyView, PushFault>(
                PushFault::Size(rule.max_file_size->0@, size(rule.max_file_size->0@)->Err_0),
            )
        }),
{
}

/// A refusal says what was refused: the rule, the folder and where the rule leads, or
/// the duration or size as it was written.
pub proof fn law_a_refused_push_says_what_was_refused(
    error: ConfigPushError,
    fault: PushFault,
    folder: Seq<char>,
)
    requires
        error.is(fault, folder),
    ensures
        fault matches PushFault::Escapes(rule) ==> (error matches ConfigPushError::Escapes {
            rule_path,
            folder: f,
            rooted: path,
        } && rule_path@ == rule && f@ == folder && path@ == rooted(folder, rule)),
        fault matches PushFault::Duration(raw, AmountFault::Overflow) ==> raw.is_suffix_of(
            error.text(),
        ),
        fault matches PushFault::Size(raw, AmountFault::Overflow) ==> raw.is_suffix_of(
            error.text(),
        ),
        fault matches PushFault::Duration(_, AmountFault::Count(why)) ==> why.is_suffix_of(
            error.text(),
        ),
        fault matches PushFault::Size(_, AmountFault::Count(why)) ==> why.is_suffix_of(
            error.text(),
        ),
{
    let said = error.text();
    match fault {
        PushFault::Duration(raw, AmountFault::Overflow)
        | PushFault::Size(raw, AmountFault::Overflow) => {
            assert(said.subrange(said.len() - raw.len(), said.len() as int) =~= raw);
        },
        PushFault::Duration(_, AmountFault::Count(why))
        | PushFault::Size(_, AmountFault::Count(why)) => {
            assert(said.subrange(said.len() - why.len(), said.len() as int) =~= why);
        },
        _ => {},
    }
}

} // verus!
