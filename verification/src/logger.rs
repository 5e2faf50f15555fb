use vstd::prelude::*;

verus! {

/// ANSI escape sequences the logger colours its lines with.
pub const RESET: &'static str = "\u{001B}[0m";
pub const RED: &'static str = "\u{001B}[31m";
pub const GREEN: &'static str = "\u{001B}[32m";
pub const YELLOW: &'static str = "\u{001B}[33m";
pub const BLUE: &'static str = "\u{001B}[34m";
pub const CYAN: &'static str = "\u{001B}[35m";

/// The level of a log record, most severe first.
#[derive(Clone, Copy, Debug, PartialEq, Eq, Structural)]
pub enum LogLevel {
    Error,
    Warn,
    Info,
    Debug,
    Trace,
}

/// A maximum level: records more verbose than it are held back. `Off`
/// holds back every record.
#[derive(Clone, Copy, Debug, PartialEq, Eq, Structural)]
pub enum LogFilter {
    Off,
    Error,
    Warn,
    Info,
    Debug,
    Trace,
}

/// A level's place in the list Off, Error, Warn, Info, Debug, Trace.
pub open spec fn level_rank(l: LogLevel) -> int {
    match l {
        LogLevel::Error => 1,
        LogLevel::Warn => 2,
        LogLevel::Info => 3,
        LogLevel::Debug => 4,
        LogLevel::Trace => 5,
    }
}

/// A filter's place in the list Off, Error, Warn, Info, Debug, Trace.
pub open spec fn filter_rank(f: LogFilter) -> int {
    match f {
        LogFilter::Off => 0,
        LogFilter::Error => 1,
        LogFilter::Warn => 2,
        LogFilter::Info => 3,
        LogFilter::Debug => 4,
        LogFilter::Trace => 5,
    }
}

/// The upper-case name a level is printed as.
pub open spec fn level_name(l: LogLevel) -> Seq<char> {
    match l {
        LogLevel::Error => "ERROR"@,
        LogLevel::Warn => "WARN"@,
        LogLevel::Info => "INFO"@,
        LogLevel::Debug => "DEBUG"@,
        LogLevel::Trace => "TRACE"@,
    }
}

/// The colour a record of the level is printed in.
pub open spec fn level_colour(l: LogLevel) -> Seq<char> {
    match l {
        LogLevel::Error => RED@,
        LogLevel::Warn => YELLOW@,
        LogLevel::Info => GREEN@,
        LogLevel::Debug => BLUE@,
        LogLevel::Trace => CYAN@,
    }
}

/// Two characters are equal once ASCII upper case is folded to lower case.
pub open spec fn same_char_ignoring_ascii_case(a: char, b: char) -> bool {
    ||| a == b
    ||| 'A' <= a <= 'Z' && b as int == a as int + 32
    ||| 'A' <= b <= 'Z' && a as int == b as int + 32
}

/// Two texts are equal once ASCII upper case is folded to lower case.
pub open spec fn same_ignoring_ascii_case(s: Seq<char>, t: Seq<char>) -> bool {
    &&& s.len() == t.len()
    &&& forall|i: int| 0 <= i < s.len() ==> same_char_ignoring_ascii_case(s[i], t[i])
}

/// The filter a text names: one of OFF, ERROR, WARN, INFO, DEBUG, TRACE, in
/// any mix of ASCII case.
pub open spec fn filter_named(s: Seq<char>) -> Option<LogFilter> {
    if same_ignoring_ascii_case(s, "OFF"@) {
        Some(LogFilter::Off)
    } else if same_ignoring_ascii_case(s, "ERROR"@) {
        Some(LogFilter::Error)
    } else if same_ignoring_ascii_case(s, "WARN"@) {
        Some(LogFilter::Warn)
    } else if same_ignoring_ascii_case(s, "INFO"@) {
        Some(LogFilter::Info)
    } else if same_ignoring_ascii_case(s, "DEBUG"@) {
        Some(LogFilter::Debug)
    } else if same_ignoring_ascii_case(s, "TRACE"@) {
        Some(LogFilter::Trace)
    } else {
        None
    }
}

/// The filter a text names, or `Off` where it names none.
pub open spec fn filter_named_or_off(s: Seq<char>) -> LogFilter {
    match filter_named(s) {
        Some(f) => f,
        None => LogFilter::Off,
    }
}

/// `log::LevelFilter::from_str`: it compares the text, ignoring ASCII case,
/// with the names OFF, ERROR, WARN, INFO, DEBUG and TRACE and gives the
/// filter of the first that matches, or an error where none does.
#[verifier::external_body]
fn parse_level_filter(name: &str) -> (r: Option<LogFilter>)
    ensures
        r == filter_named(name@),
{
    match <log::LevelFilter as core::str::FromStr>::from_str(name) {
        Ok(log::LevelFilter::Off) => Some(LogFilter::Off),
        Ok(log::LevelFilter::Error) => Some(LogFilter::Error),
        Ok(log::LevelFilter::Warn) => Some(LogFilter::Warn),
        Ok(log::LevelFilter::Info) => Some(LogFilter::Info),
        Ok(log::LevelFilter::Debug) => Some(LogFilter::Debug),
        Ok(log::LevelFilter::Trace) => Some(LogFilter::Trace),
        Err(_) => None,
    }
}

/// The filter a level setting names; a setting that names none turns
/// logging off.
pub fn level_filter_from(name: &str) -> (f: LogFilter)
    ensures
        f == filter_named_or_off(name@),
{
    match parse_level_filter(name) {
        Some(f) => f,
        None => LogFilter::Off,
    }
}

/// The maximum level that the build-time setting asks for: none where there
/// is no setting, else the level it names, or `Off`.
pub fn max_level_from_setting(setting: Option<&str>) -> (r: Option<LogFilter>)
    ensures
        setting is None ==> r is None,
        setting matches Some(s) ==> r == Some(filter_named_or_off(s@)),
{
    match setting {
        Some(s) => Some(level_filter_from(s)),
        None => None,
    }
}

impl LogLevel {
    /// The upper-case name of the level.
    pub fn as_str(&self) -> (s: &'static str)
        ensures
            s@ == level_name(*self),
    {
        match self {
            LogLevel::Error => "ERROR",
            LogLevel::Warn => "WARN",
            LogLevel::Info => "INFO",
            LogLevel::Debug => "DEBUG",
            LogLevel::Trace => "TRACE",
        }
    }

    /// The colour a record of this level is printed in.
    pub fn colour(&self) -> (s: &'static str)
        ensures
            s@ == level_colour(*self),
    {
        match self {
            LogLevel::Error => RED,
            LogLevel::Warn => YELLOW,
            LogLevel::Info => GREEN,
            LogLevel::Debug => BLUE,
            LogLevel::Trace => CYAN,
        }
    }

    fn rank(&self) -> (r: u8)
        ensures
            r == level_rank(*self),
    {
        match self {
            LogLevel::Error => 1,
            LogLevel::Warn => 2,
            LogLevel::Info => 3,
            LogLevel::Debug => 4,
            LogLevel::Trace => 5,
        }
    }
}

impl LogFilter {
    fn rank(&self) -> (r: u8)
        ensures
            r == filter_rank(*self),
    {
        match self {
            LogFilter::Off => 0,
            LogFilter::Error => 1,
            LogFilter::Warn => 2,
            LogFilter::Info => 3,
            LogFilter::Debug => 4,
            LogFilter::Trace => 5,
        }
    }

    /// The filter stands below the level, so that it holds back records of
    /// that level.
    pub fn is_below(&self, level: LogLevel) -> (r: bool)
        ensures
            r == (filter_rank(*self) < level_rank(level)),
    {
        self.rank() < level.rank()
    }
}

/// `s[i..j]` is one entry of a comma-separated list: it starts at the front
/// or after a comma, ends at the back or before a comma, and holds no comma.
pub open spec fn is_entry(s: Seq<char>, i: int, j: int) -> bool {
    &&& 0 <= i <= j <= s.len()
    &&& (i == 0 || s[i - 1] == ',')
    &&& (j == s.len() || s[j] == ',')
    &&& forall|k: int| i <= k < j ==> s[k] != ','
}

/// `k` is where the first `=` of the entry stands.
pub open spec fn is_first_equals(e: Seq<char>, k: int) -> bool {
    &&& 0 <= k < e.len()
    &&& e[k] == '='
    &&& forall|m: int| 0 <= m < k ==> e[m] != '='
}

/// An entry `prefix=level` holds back a record when the record's target
/// starts with the prefix and the level (`Off` where it names none) stands
/// below the record's level. An entry without `=` holds back nothing.
pub open spec fn entry_holds_back(e: Seq<char>, target: Seq<char>, level: LogLevel) -> bool {
    exists|k: int|
        #![trigger is_first_equals(e, k)]
        is_first_equals(e, k) && e.subrange(0, k).is_prefix_of(target) && filter_rank(
            filter_named_or_off(e.subrange(k + 1, e.len() as int)),
        ) < level_rank(level)
}

/// Some entry of the comma-separated target list holds back the record.
pub open spec fn targets_hold_back(targets: Seq<char>, target: Seq<char>, level: LogLevel) -> bool {
    exists|i: int, j: int|
        #![trigger is_entry(targets, i, j)]
        is_entry(targets, i, j) && entry_holds_back(targets.subrange(i, j), target, level)
}

/// Where the first `c` at or after `from` stands, or the length of `s`.
fn find_char(s: &str, from: usize, c: char) -> (r: usize)
    requires
        from <= s@.len(),
    ensures
        from <= r <= s@.len(),
        forall|k: int| from <= k < r ==> s@[k] != c,
        r < s@.len() ==> s@[r as int] == c,
{
    let n = s.unicode_len();
    let mut i = from;
    while i < n
        invariant
            n == s@.len(),
            from <= i <= n,
            forall|k: int| from <= k < i ==> s@[k] != c,
        decreases n - i,
    {
        if s.get_char(i) == c {
            return i;
        }
        i = i + 1;
    }
    n
}

/// `t[from..to]` is a prefix of `s`.
fn has_prefix_at(s: &str, t: &str, from: usize, to: usize) -> (r: bool)
    requires
        from <= to <= t@.len(),
    ensures
        r == t@.subrange(from as int, to as int).is_prefix_of(s@),
{
    let len = to - from;
    if len > s.unicode_len() {
        return false;
    }
    let mut i: usize = 0;
    while i < len
        invariant
            len == to - from <= s@.len(),
            from <= to <= t@.len(),
            i <= len,
            forall|k: int| 0 <= k < i ==> t@[from + k] == s@[k],
        decreases len - i,
    {
        if s.get_char(i) != t.get_char(from + i) {
            assert(t@.subrange(from as int, to as int)[i as int] != s@.subrange(0, len as int)[i as int]);
            return false;
        }
        i = i + 1;
    }
    assert(t@.subrange(from as int, to as int) =~= s@.subrange(0, len as int));
    true
}

/// Whether the entry `t[start..end]` holds back a record with the given
/// target and level.
fn entry_check(t: &str, start: usize, end: usize, target: &str, level: LogLevel) -> (r: bool)
    requires
        start <= end <= t@.len(),
        forall|k: int| start <= k < end ==> t@[k] != ',',
    ensures
        r == entry_holds_back(t@.subrange(start as int, end as int), target@, level),
{
    let ghost e = t@.subrange(start as int, end as int);
    let eq = find_char(t, start, '=');
    if eq >= end {
        assert forall|k: int| !is_first_equals(e, k) by {
            if 0 <= k < e.len() {
                assert(e[k] == t@[start + k]);
            }
        }
        return false;
    }
    let ghost k0 = eq - start;
    assert(is_first_equals(e, k0)) by {
        assert forall|m: int| 0 <= m < k0 implies e[m] != '=' by {
            assert(e[m] == t@[start + m]);
        }
    }
    assert forall|k: int| is_first_equals(e, k) implies k == k0 by {
        if k < k0 {
            assert(e[k] == t@[start + k]);
        }
    }
    assert(e.subrange(0, k0) =~= t@.subrange(start as int, eq as int));
    if !has_prefix_at(target, t, start, eq) {
        return false;
    }
    let level_text = t.substring_char(eq + 1, end);
    assert(level_text@ =~= e.subrange(k0 + 1, e.len() as int));
    let filter = level_filter_from(level_text);
    filter.is_below(level)
}

/// Whether the list of target entries (`prefix=level`, separated by commas)
/// holds back a record with the given target and level.
fn entries_hold_back(t: &str, target: &str, level: LogLevel) -> (r: bool)
    ensures
        r == targets_hold_back(t@, target@, level),
{
    let n = t.unicode_len();
    let mut start: usize = 0;
    loop
        invariant
            n == t@.len(),
            start <= n,
            start == 0 || t@[start - 1] == ',',
            forall|i: int, j: int|
                #[trigger] is_entry(t@, i, j) && i < start ==> !entry_holds_back(
                    t@.subrange(i, j),
                    target@,
                    level,
                ),
        decreases n - start,
    {
        let end = find_char(t, start, ',');
        assert(is_entry(t@, start as int, end as int));
        if entry_check(t, start, end, target, level) {
            return true;
        }
        assert forall|i: int, j: int| #[trigger] is_entry(t@, i, j) && start <= i <= end implies i
            == start && j == end by {
            if i > start {
                assert(t@[i - 1] == ',');
            }
            if j < end {
                assert(t@[j] == ',');
            }
        }
        if end == n {
            return false;
        }
        start = end + 1;
    }
}

/// Whether the target setting holds back a record with the given target and
/// level: only where there is a setting and one of its entries does.
pub fn is_held_back(targets: Option<&str>, target: &str, level: LogLevel) -> (r: bool)
    ensures
        r == (targets matches Some(t) && targets_hold_back(t@, target@, level)),
{
    match targets {
        Some(t) => entries_hold_back(t, target, level),
        None => false,
    }
}

/// A target setting that holds back a record also holds back every more
/// verbose record of the same target.
pub proof fn lemma_held_back_more_verbose(
    targets: Seq<char>,
    target: Seq<char>,
    level: LogLevel,
    more_verbose: LogLevel,
)
    requires
        targets_hold_back(targets, target, level),
        level_rank(level) <= level_rank(more_verbose),
    ensures
        targets_hold_back(targets, target, more_verbose),
{
    let (i, j) = choose|i: int, j: int|
        is_entry(targets, i, j) && entry_holds_back(targets.subrange(i, j), target, level);
    let e = targets.subrange(i, j);
    let k = choose|k: int|
        is_first_equals(e, k) && e.subrange(0, k).is_prefix_of(target) && filter_rank(
            filter_named_or_off(e.subrange(k + 1, e.len() as int)),
        ) < level_rank(level);
    assert(is_first_equals(e, k));
    assert(entry_holds_back(e, target, more_verbose));
    assert(is_entry(targets, i, j));
}

/// A target setting that holds back a record also holds back the records,
/// at the same level, of every target that extends the record's target.
pub proof fn lemma_held_back_longer_target(
    targets: Seq<char>,
    target: Seq<char>,
    extension: Seq<char>,
    level: LogLevel,
)
    requires
        targets_hold_back(targets, target, level),
    ensures
        targets_hold_back(targets, target + extension, level),
{
    let (i, j) = choose|i: int, j: int|
        is_entry(targets, i, j) && entry_holds_back(targets.subrange(i, j), target, level);
    let e = targets.subrange(i, j);
    let k = choose|k: int|
        is_first_equals(e, k) && e.subrange(0, k).is_prefix_of(target) && filter_rank(
            filter_named_or_off(e.subrange(k + 1, e.len() as int)),
        ) < level_rank(level);
    assert((target + extension).subrange(0, k) =~= target.subrange(0, k));
    assert(is_first_equals(e, k));
    assert(entry_holds_back(e, target + extension, level));
    assert(is_entry(targets, i, j));
}

/// The decimal digit `d` as a character.
pub open spec fn digit_char(d: nat) -> char {
    ((48 + d) as u32) as char
}

/// The decimal numeral of `n`, without sign or leading zeros.
pub open spec fn decimal(n: nat) -> Seq<char>
    decreases n,
{
    if n < 10 {
        seq![digit_char(n)]
    } else {
        decimal(n / 10).push(digit_char(n % 10))
    }
}

fn digit_text(d: u64) -> (s: &'static str)
    requires
        d < 10,
    ensures
        s@ == seq![digit_char(d as nat)],
{
    proof {
        reveal_strlit("0");
        reveal_strlit("1");
        reveal_strlit("2");
        reveal_strlit("3");
        reveal_strlit("4");
        reveal_strlit("5");
        reveal_strlit("6");
        reveal_strlit("7");
        reveal_strlit("8");
        reveal_strlit("9");
    }
    match d {
        0 => "0",
        1 => "1",
        2 => "2",
        3 => "3",
        4 => "4",
        5 => "5",
        6 => "6",
        7 => "7",
        8 => "8",
        _ => "9",
    }
}

fn push_decimal(s: &mut String, n: u64)
    ensures
        final(s)@ == old(s)@ + decimal(n as nat),
    decreases n,
{
    if n >= 10 {
        push_decimal(s, n / 10);
    }
    s.append(digit_text(n % 10));
    assert(final(s)@ =~= old(s)@ + decimal(n as nat));
}

/// The line the logger prints for a record:
/// `[<colour><LEVEL> <target> <seconds>s<reset>] <message>`.
pub open spec fn record_text(level: LogLevel, target: Seq<char>, secs: u64, message: Seq<char>) -> Seq<
    char,
> {
    "["@ + level_colour(level) + level_name(level) + " "@ + target + " "@ + decimal(secs as nat)
        + "s"@ + RESET@ + "] "@ + message
}

/// The line the logger prints for a record of the given level and target,
/// logged the given number of seconds after start-up.
pub fn format_record(level: LogLevel, target: &str, secs: u64, message: &str) -> (line: String)
    ensures
        line@ == record_text(level, target@, secs, message@),
{
    let mut line = String::from_str("[");
    line.append(level.colour());
    line.append(level.as_str());
    line.append(" ");
    line.append(target);
    line.append(" ");
    push_decimal(&mut line, secs);
    line.append("s");
    line.append(RESET);
    line.append("] ");
    line.append(message);
    assert(line@ =~= record_text(level, target@, secs, message@));
    line
}

/// The line the logger prints about its own setup:
/// `[<green>LOGGER<reset>] <data>`.
pub open spec fn setup_text(data: Seq<char>) -> Seq<char> {
    "["@ + GREEN@ + "LOGGER"@ + RESET@ + "] "@ + data
}

/// The line the logger prints about its own setup.
pub fn setup_line(data: &str) -> (line: String)
    ensures
        line@ == setup_text(data@),
{
    let mut line = String::from_str("[");
    line.append(GREEN);
    line.append("LOGGER");
    line.append(RESET);
    line.append("] ");
    line.append(data);
    assert(line@ =~= setup_text(data@));
    line
}

/// The value of a numeral written with the characters `'0'` to `'9'`, most
/// significant digit first.
pub open spec fn numeral_value(s: Seq<char>) -> int
    decreases s.len(),
{
    if s.len() == 0 {
        0
    } else {
        numeral_value(s.drop_last()) * 10 + (s.last() as int - '0' as int)
    }
}

/// The seconds printed in a log line are the base-10 numeral of the count:
/// one or more decimal digits, read back they give the count, and the first
/// digit is `0` only for the count zero itself.
pub proof fn lemma_decimal_is_numeral(n: nat)
    ensures
        decimal(n).len() >= 1,
        forall|i: int| 0 <= i < decimal(n).len() ==> '0' <= #[trigger] decimal(n)[i] <= '9',
        numeral_value(decimal(n)) == n,
        decimal(n)[0] == '0' <==> n == 0,
    decreases n,
{
    reveal_with_fuel(numeral_value, 2);
    if n < 10 {
        assert(decimal(n) == seq![digit_char(n)]);
        assert(decimal(n).drop_last() =~= Seq::<char>::empty());
        assert(digit_char(n) as int == 48 + n);
    } else {
        let q = n / 10;
        let r = n % 10;
        lemma_decimal_is_numeral(q);
        let d = decimal(q);
        assert(decimal(n) == d.push(digit_char(r)));
        assert(d.push(digit_char(r)).drop_last() =~= d);
        assert(digit_char(r) as int == 48 + r);
        assert(n == q * 10 + r);
        assert(q >= 1);
        assert(d.push(digit_char(r))[0] == d[0]);
        assert(numeral_value(decimal(n)) == numeral_value(d) * 10 + (digit_char(r) as int - '0' as int));
    }
}

/// The levels from the most severe to the most verbose: the order of
/// `log::Level`.
pub open spec fn levels_by_verbosity() -> Seq<LogLevel> {
    seq![LogLevel::Error, LogLevel::Warn, LogLevel::Info, LogLevel::Debug, LogLevel::Trace]
}

/// The filter of the same name as a level.
pub open spec fn filter_named_like(l: LogLevel) -> LogFilter {
    match l {
        LogLevel::Error => LogFilter::Error,
        LogLevel::Warn => LogFilter::Warn,
        LogLevel::Info => LogFilter::Info,
        LogLevel::Debug => LogFilter::Debug,
        LogLevel::Trace => LogFilter::Trace,
    }
}

/// A filter holds back records of a level exactly when that level is more
/// verbose than the filter's own: the filter named like the `i`-th level in
/// order of verbosity is below the `j`-th level iff `i < j`. `Off` is below
/// every level.
pub proof fn lemma_filter_below_more_verbose(i: int, j: int)
    requires
        0 <= i < 5,
        0 <= j < 5,
    ensures
        filter_rank(filter_named_like(levels_by_verbosity()[i])) < level_rank(
            levels_by_verbosity()[j],
        ) <==> i < j,
        filter_rank(LogFilter::Off) < level_rank(levels_by_verbosity()[j]),
{
}

/// Every level prints under its own name: the five names differ, and the
/// filter setting spelled with a level's name is the filter of that name.
pub proof fn lemma_level_names(l: LogLevel, m: LogLevel)
    ensures
        l != m ==> level_name(l) != level_name(m),
        filter_named(level_name(l)) == Some(filter_named_like(l)),
{
    reveal_strlit("OFF");
    reveal_strlit("ERROR");
    reveal_strlit("WARN");
    reveal_strlit("INFO");
    reveal_strlit("DEBUG");
    reveal_strlit("TRACE");
    if l != m {
        let a = level_name(l);
        let b = level_name(m);
        if a.len() == b.len() {
            assert(a[0] != b[0]);
        }
    }
    let n = level_name(l);
    assert(same_ignoring_ascii_case(n, n));
    if !(l is Error) && n.len() == 5 {
        assert(!same_char_ignoring_ascii_case(n[0], "ERROR"@[0]));
    }
    if !(l is Warn) && n.len() == 4 {
        assert(!same_char_ignoring_ascii_case(n[0], "WARN"@[0]));
    }
    if !(l is Info) && n.len() == 4 {
        assert(!same_char_ignoring_ascii_case(n[0], "INFO"@[0]));
    }
    if !(l is Debug) && n.len() == 5 {
        assert(!same_char_ignoring_ascii_case(n[0], "DEBUG"@[0]));
    }
}

} // verus!
