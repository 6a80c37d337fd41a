//! The log: which records are shown, and when they were made.

use vstd::prelude::*;

verus! {

/// Seconds and milliseconds since the machine was started.
pub open spec fn time_of(time: int, timebase_freq: int) -> (int, int) {
    let ns = time * (1_000_000_000int / timebase_freq);
    (ns / 1_000_000_000, ns % 1_000_000_000 / 1_000_000)
}

/// Seconds and milliseconds since the machine was started, given the time
/// register and how many ticks it makes in a second.
pub fn time(ticks: u64, timebase_freq: u64) -> (r: (u64, u64))
    requires
        timebase_freq > 0,
        ticks * (1_000_000_000u64 / timebase_freq) <= u64::MAX,
    ensures
        (r.0 as int, r.1 as int) == time_of(ticks as int, timebase_freq as int),
{
    let time_ns: u64 = ticks * (1_000_000_000 / timebase_freq);
    let sec: u64 = time_ns / 1_000_000_000;
    let time_ns: u64 = time_ns % 1_000_000_000;
    let ms: u64 = time_ns / 1_000_000;
    (sec, ms)
}

/// How much is logged.
#[derive(Copy, Clone, Debug, PartialEq, Eq, Structural)]
pub enum LevelFilter {
    Off,
    Error,
    Warn,
    Info,
    Debug,
    Trace,
}

impl LevelFilter {
    /// The rank of the level: the higher, the more is logged.
    pub open spec fn rank(self) -> int {
        match self {
            LevelFilter::Off => 0,
            LevelFilter::Error => 1,
            LevelFilter::Warn => 2,
            LevelFilter::Info => 3,
            LevelFilter::Debug => 4,
            LevelFilter::Trace => 5,
        }
    }

    /// The rank of the level.
    pub fn number(self) -> (r: u8)
        ensures
            r == self.rank(),
    {
        match self {
            LevelFilter::Off => 0,
            LevelFilter::Error => 1,
            LevelFilter::Warn => 2,
            LevelFilter::Info => 3,
            LevelFilter::Debug => 4,
            LevelFilter::Trace => 5,
        }
    }

    /// The level that a name stands for.
    pub open spec fn named(name: Seq<u8>) -> Option<LevelFilter> {
        if name =~= off_name() {
            Some(LevelFilter::Off)
        } else if name =~= trace_name() {
            Some(LevelFilter::Trace)
        } else if name =~= debug_name() {
            Some(LevelFilter::Debug)
        } else if name =~= info_name() {
            Some(LevelFilter::Info)
        } else if name =~= warn_name() {
            Some(LevelFilter::Warn)
        } else if name =~= error_name() {
            Some(LevelFilter::Error)
        } else {
            None
        }
    }
}

/// The name "off".
pub open spec fn off_name() -> Seq<u8> {
    seq![0x6f, 0x66, 0x66]
}

/// The name "trace".
pub open spec fn trace_name() -> Seq<u8> {
    seq![0x74, 0x72, 0x61, 0x63, 0x65]
}

/// The name "debug".
pub open spec fn debug_name() -> Seq<u8> {
    seq![0x64, 0x65, 0x62, 0x75, 0x67]
}

/// The name "info".
pub open spec fn info_name() -> Seq<u8> {
    seq![0x69, 0x6e, 0x66, 0x6f]
}

/// The name "warn".
pub open spec fn warn_name() -> Seq<u8> {
    seq![0x77, 0x61, 0x72, 0x6e]
}

/// The name "error".
pub open spec fn error_name() -> Seq<u8> {
    seq![0x65, 0x72, 0x72, 0x6f, 0x72]
}

/// The name "ignore-harts".
pub open spec fn ignore_harts_name() -> Seq<u8> {
    seq![0x69, 0x67, 0x6e, 0x6f, 0x72, 0x65, 0x2d, 0x68, 0x61, 0x72, 0x74, 0x73]
}

/// Whether two runs of bytes are the same.
fn same(a: &[u8], b: &[u8]) -> (r: bool)
    ensures
        r == (a@ =~= b@),
{
    if a.len() != b.len() {
        return false;
    }
    let mut i: usize = 0;
    while i < a.len()
        invariant
            i <= a@.len(),
            a@.len() == b@.len(),
            forall|j: int| 0 <= j < i ==> a@[j] == b@[j],
        decreases a@.len() - i,
    {
        if a[i] != b[i] {
            return false;
        }
        i += 1;
    }
    true
}

/// The level that a name stands for.
pub fn level_from_str(level: &[u8]) -> (r: Option<LevelFilter>)
    ensures
        r == LevelFilter::named(level@),
{
    let off: [u8; 3] = [0x6f, 0x66, 0x66];
    let trace: [u8; 5] = [0x74, 0x72, 0x61, 0x63, 0x65];
    let debug: [u8; 5] = [0x64, 0x65, 0x62, 0x75, 0x67];
    let info: [u8; 4] = [0x69, 0x6e, 0x66, 0x6f];
    let warn: [u8; 4] = [0x77, 0x61, 0x72, 0x6e];
    let error: [u8; 5] = [0x65, 0x72, 0x72, 0x6f, 0x72];
    assert(off@ =~= off_name());
    assert(trace@ =~= trace_name());
    assert(debug@ =~= debug_name());
    assert(info@ =~= info_name());
    assert(warn@ =~= warn_name());
    assert(error@ =~= error_name());
    if same(level, off.as_slice()) {
        Some(LevelFilter::Off)
    } else if same(level, trace.as_slice()) {
        Some(LevelFilter::Trace)
    } else if same(level, debug.as_slice()) {
        Some(LevelFilter::Debug)
    } else if same(level, info.as_slice()) {
        Some(LevelFilter::Info)
    } else if same(level, warn.as_slice()) {
        Some(LevelFilter::Warn)
    } else if same(level, error.as_slice()) {
        Some(LevelFilter::Error)
    } else {
        None
    }
}

/// The first index from `i` on at which `sep` stands; the length if there is
/// none.
pub open spec fn next_sep(s: Seq<u8>, sep: u8, i: int) -> int
    decreases s.len() - i,
{
    if i >= s.len() {
        s.len() as int
    } else if s[i] == sep {
        i
    } else {
        next_sep(s, sep, i + 1)
    }
}

/// The pieces between the places where `sep` stands; one more than there are
/// such places.
pub open spec fn pieces(s: Seq<u8>, sep: u8) -> Seq<Seq<u8>>
    decreases s.len(),
{
    let k = next_sep(s, sep, 0);
    if 0 <= k < s.len() {
        seq![s.take(k)] + pieces(s.skip(k + 1), sep)
    } else {
        seq![s]
    }
}

/// A search in the rest of a run finds what a search from there on does.
proof fn lemma_next_sep(s: Seq<u8>, sep: u8, i: int, j: int)
    requires
        0 <= i <= s.len(),
        0 <= j <= s.len() - i,
    ensures
        next_sep(s.skip(i), sep, j) == next_sep(s, sep, i + j) - i,
        i + j <= next_sep(s, sep, i + j) <= s.len(),
    decreases s.len() - i - j,
{
    if j < s.len() - i {
        lemma_next_sep(s, sep, i, j + 1);
    }
}

/// A copy of the bytes from `lo` up to `hi`.
fn copy_range(s: &[u8], lo: usize, hi: usize) -> (r: Vec<u8>)
    requires
        lo <= hi <= s@.len(),
    ensures
        r@ == s@.subrange(lo as int, hi as int),
{
    let mut v: Vec<u8> = Vec::new();
    let mut i: usize = lo;
    while i < hi
        invariant
            lo <= i <= hi <= s@.len(),
            v@ == s@.subrange(lo as int, i as int),
        decreases hi - i,
    {
        v.push(s[i]);
        i += 1;
        assert(v@ =~= s@.subrange(lo as int, i as int));
    }
    v
}

/// What runs of bytes hold.
pub open spec fn views(v: Seq<Vec<u8>>) -> Seq<Seq<u8>> {
    v.map_values(|b: Vec<u8>| b@)
}

/// The pieces between the places where `sep` stands.
fn split(s: &[u8], sep: u8) -> (r: Vec<Vec<u8>>)
    ensures
        views(r@) == pieces(s@, sep),
        r@.len() > 0,
{
    let mut out: Vec<Vec<u8>> = Vec::new();
    let mut start: usize = 0;
    let mut i: usize = 0;
    proof {
        assert(s@.skip(0) =~= s@);
        assert(views(out@) + pieces(s@, sep) =~= pieces(s@, sep));
    }
    while i < s.len()
        invariant
            start <= i <= s@.len(),
            next_sep(s@, sep, start as int) == next_sep(s@, sep, i as int),
            views(out@) + pieces(s@.skip(start as int), sep) == pieces(s@, sep),
        decreases s@.len() - i,
    {
        if s[i] == sep {
            let piece = copy_range(s, start, i);
            let ghost rest = s@.skip(start as int);
            let ghost before = out@;
            proof {
                lemma_next_sep(s@, sep, start as int, 0);
                assert(rest.take(i - start) =~= s@.subrange(start as int, i as int));
                assert(rest.skip(i - start + 1) =~= s@.skip(i + 1));
            }
            out.push(piece);
            proof {
                assert(views(out@) =~= views(before).push(piece@));
                assert(views(out@) + pieces(s@.skip(i + 1), sep) =~= views(before) + (seq![piece@]
                    + pieces(s@.skip(i + 1), sep)));
            }
            i += 1;
            start = i;
        } else {
            i += 1;
        }
    }
    let piece = copy_range(s, start, i);
    let ghost before = out@;
    proof {
        lemma_next_sep(s@, sep, start as int, 0);
        assert(piece@ =~= s@.skip(start as int));
    }
    out.push(piece);
    proof {
        assert(views(out@) =~= views(before).push(piece@));
        assert(views(out@) =~= views(before) + seq![piece@]);
    }
    out
}

/// The value of decimal digits.
pub open spec fn decimal(d: Seq<u8>) -> int
    decreases d.len(),
{
    if d.len() == 0 {
        0
    } else {
        decimal(d.drop_last()) * 10 + (d.last() - 0x30)
    }
}

/// Whether all bytes are decimal digits.
pub open spec fn all_digits(d: Seq<u8>) -> bool {
    forall|i: int| 0 <= i < d.len() ==> 0x30 <= #[trigger] d[i] <= 0x39
}

/// The number that a text stands for: decimal digits, with or without a plus
/// sign before them, if the number fits a machine word.
pub open spec fn number(s: Seq<u8>) -> Option<u64> {
    let d = if s.len() > 1 && s[0] == 0x2b {
        s.skip(1)
    } else {
        s
    };
    if d.len() > 0 && all_digits(d) && decimal(d) <= u64::MAX {
        Some(decimal(d) as u64)
    } else {
        None
    }
}

/// More digits stand for a larger number.
proof fn lemma_decimal_grows(d: Seq<u8>, i: int)
    requires
        all_digits(d),
        0 <= i <= d.len(),
    ensures
        0 <= decimal(d.take(i)) <= decimal(d),
    decreases d.len(),
{
    if i == d.len() {
        assert(d.take(i) =~= d);
        if d.len() > 0 {
            lemma_decimal_grows(d.drop_last(), 0);
            assert(d.drop_last().take(0) =~= Seq::empty());
        }
    } else {
        lemma_decimal_grows(d.drop_last(), i);
        assert(d.drop_last().take(i) =~= d.take(i));
    }
}

/// The number that a text stands for.
fn parse_number(s: &[u8]) -> (r: Option<u64>)
    ensures
        r == number(s@),
{
    let mut i: usize = 0;
    if s.len() > 1 && s[0] == 0x2b {
        i = 1;
    }
    let ghost from = i as int;
    let ghost d = s@.skip(from);
    assert(from == 0 ==> d =~= s@);
    if i == s.len() {
        return None;
    }
    let mut n: u64 = 0;
    assert(d.take(0) =~= Seq::empty());
    while i < s.len()
        invariant
            0 <= from <= i <= s@.len(),
            d == s@.skip(from),
            d.len() > 0,
            number(s@) == if all_digits(d) && decimal(d) <= u64::MAX {
                Some(decimal(d) as u64)
            } else {
                None
            },
            all_digits(d.take(i - from)),
            n == decimal(d.take(i - from)),
        decreases s@.len() - i,
    {
        let b: u8 = s[i];
        assert(b == d[i - from]);
        if b < 0x30 || b > 0x39 {
            return None;
        }
        proof {
            let more = d.take(i - from + 1);
            assert(more.drop_last() =~= d.take(i - from));
            assert(more.last() == b);
            if all_digits(d) {
                lemma_decimal_grows(d, i - from + 1);
            }
        }
        let digit: u64 = (b - 0x30) as u64;
        if n > (u64::MAX - digit) / 10 {
            return None;
        }
        n = n * 10 + digit;
        i += 1;
    }
    assert(d.take(i - from) =~= d);
    Some(n)
}

/// How much of the records of a part of the kernel is shown: what it is called,
/// and the level, if one is given.
pub struct Filter {
    pub name: Vec<u8>,
    pub level: Option<LevelFilter>,
}

/// What a filter says.
#[verifier::ext_equal]
pub struct FilterView {
    pub name: Seq<u8>,
    pub level: Option<LevelFilter>,
}

impl Filter {
    /// What the filter says.
    pub open spec fn view(&self) -> FilterView {
        FilterView { name: self.name@, level: self.level }
    }
}

/// The index of the filter with the given name, from `i` on; the length if there
/// is none.
pub open spec fn index_of(filters: Seq<FilterView>, name: Seq<u8>, i: int) -> int
    decreases filters.len() - i,
{
    if i >= filters.len() {
        filters.len() as int
    } else if filters[i].name =~= name {
        i
    } else {
        index_of(filters, name, i + 1)
    }
}

/// With a filter of the given name, in place of the one that has it.
pub open spec fn inserted(
    filters: Seq<FilterView>,
    name: Seq<u8>,
    level: Option<LevelFilter>,
) -> Seq<FilterView> {
    let k = index_of(filters, name, 0);
    if 0 <= k < filters.len() {
        filters.update(k, FilterView { name, level })
    } else {
        filters.push(FilterView { name, level })
    }
}

/// What decides which records are shown.
pub struct LogFilter {
    /// The harts whose records are shown, as bits.
    pub hart_filter: u64,
    /// How much is shown where no filter says otherwise.
    pub log_level: LevelFilter,
    pub filters: Option<Vec<Filter>>,
}

/// What decides which records are shown.
#[verifier::ext_equal]
pub struct LogView {
    pub hart_filter: u64,
    pub log_level: LevelFilter,
    pub filters: Option<Seq<FilterView>>,
}

/// What filters say.
pub open spec fn filter_views(filters: Seq<Filter>) -> Seq<FilterView> {
    filters.map_values(|f: Filter| f@)
}

impl LogFilter {
    /// What decides which records are shown.
    pub open spec fn view(&self) -> LogView {
        LogView {
            hart_filter: self.hart_filter,
            log_level: self.log_level,
            filters: match self.filters {
                Some(filters) => Some(filter_views(filters@)),
                None => None,
            },
        }
    }
}

/// What a part of a filter text changes: the harts, the level, and the filters.
#[verifier::ext_equal]
pub struct Parsed {
    pub hart_filter: u64,
    pub log_level: LevelFilter,
    pub filters: Seq<FilterView>,
}

/// The piece at an index, if there are that many.
pub open spec fn piece(words: Seq<Seq<u8>>, i: int) -> Option<Seq<u8>> {
    if 0 <= i < words.len() {
        Some(words[i])
    } else {
        None
    }
}

/// The bits of the harts that are to be ignored.
pub open spec fn hart_mask(list: Option<Seq<u8>>) -> u64 {
    match list {
        Some(list) => match number(list) {
            Some(n) => 1u64 << n,
            None => 0,
        },
        None => 0,
    }
}

/// What one part of a filter text changes. A part that is the name of a level
/// sets the level; one that names harts ignores them, or no longer does; and
/// each part but the name of a level is the name of a filter, with a level
/// behind it if there is one. A filter with a bad level is skipped.
pub open spec fn part_parsed(p: Parsed, part: Seq<u8>) -> Parsed {
    let words = pieces(part, 0x3d);
    let name = words[0];
    if name =~= ignore_harts_name() {
        let harts = Parsed {
            hart_filter: p.hart_filter ^ hart_mask(piece(words, 1)),
            ..p
        };
        with_filter(harts, name, piece(words, 2))
    } else {
        match LevelFilter::named(name) {
            Some(level) => Parsed { log_level: level, ..p },
            None => with_filter(p, name, piece(words, 1)),
        }
    }
}

/// With a filter of the given name, and the level that is named behind it; it is
/// skipped if that is not the name of a level.
pub open spec fn with_filter(p: Parsed, name: Seq<u8>, level: Option<Seq<u8>>) -> Parsed {
    match level {
        Some(text) => match LevelFilter::named(text) {
            Some(level) => Parsed { filters: inserted(p.filters, name, Some(level)), ..p },
            None => p,
        },
        None => Parsed { filters: inserted(p.filters, name, None), ..p },
    }
}

/// What the first `n` parts of a filter text change.
pub open spec fn parts_parsed(p: Parsed, parts: Seq<Seq<u8>>, n: int) -> Parsed
    decreases n,
{
    if n <= 0 {
        p
    } else {
        part_parsed(parts_parsed(p, parts, n - 1), parts[n - 1])
    }
}

/// What a filter text changes.
pub open spec fn text_parsed(log: LogView, text: Seq<u8>) -> LogView {
    let parts = pieces(text, 0x2c);
    let p = parts_parsed(
        Parsed {
            hart_filter: log.hart_filter,
            log_level: log.log_level,
            filters: Seq::empty(),
        },
        parts,
        parts.len() as int,
    );
    LogView { hart_filter: p.hart_filter, log_level: p.log_level, filters: Some(p.filters) }
}

/// Whether a part of a filter text names no hart that does not fit a mask.
pub open spec fn harts_fit(part: Seq<u8>) -> bool {
    let words = pieces(part, 0x3d);
    words[0] =~= ignore_harts_name() && words.len() > 1 ==> (number(words[1]) matches Some(n) ==> n
        < 64)
}

/// Put a filter among others, in place of the one that has its name.
fn insert_filter(filters: &mut Vec<Filter>, name: Vec<u8>, level: Option<LevelFilter>)
    ensures
        filter_views(final(filters)@) == inserted(filter_views(old(filters)@), name@, level),
{
    let ghost before = filter_views(filters@);
    let mut i: usize = 0;
    while i < filters.len()
        invariant
            i <= filters@.len(),
            *filters == *old(filters),
            before == filter_views(old(filters)@),
            index_of(before, name@, 0) == index_of(before, name@, i as int),
        decreases filters@.len() - i,
    {
        assert(before[i as int] == filters@[i as int]@);
        if same(filters[i].name.as_slice(), name.as_slice()) {
            let ghost wanted = FilterView { name: name@, level };
            filters.set(i, Filter { name, level });
            assert(filter_views(filters@) =~= before.update(i as int, wanted));
            return;
        }
        i += 1;
    }
    let ghost wanted = FilterView { name: name@, level };
    filters.push(Filter { name, level });
    assert(filter_views(filters@) =~= before.push(wanted));
}

/// Put a filter among others, with the level that is named behind it; it is
/// skipped if that is not the name of a level.
fn add_filter(filters: &mut Vec<Filter>, words: &Vec<Vec<u8>>, i: usize)
    requires
        words@.len() > 0,
    ensures
        forall|hart_filter: u64, log_level: LevelFilter| #[trigger]
            with_filter(
                Parsed { hart_filter, log_level, filters: filter_views(old(filters)@) },
                views(words@)[0],
                piece(views(words@), i as int),
            ) == (Parsed { hart_filter, log_level, filters: filter_views(final(filters)@) }),
{
    let name = copy_range(words[0].as_slice(), 0, words[0].len());
    assert(name@ =~= views(words@)[0]);
    if i < words.len() {
        assert(words@[i as int]@ == views(words@)[i as int]);
        match level_from_str(words[i].as_slice()) {
            Some(level) => insert_filter(filters, name, Some(level)),
            None => {},
        }
    } else {
        insert_filter(filters, name, None);
    }
}

/// Whether a name is "ignore-harts".
fn is_ignore_harts(name: &[u8]) -> (r: bool)
    ensures
        r == (name@ =~= ignore_harts_name()),
{
    let ignore: [u8; 12] = [
        0x69,
        0x67,
        0x6e,
        0x6f,
        0x72,
        0x65,
        0x2d,
        0x68,
        0x61,
        0x72,
        0x74,
        0x73,
    ];
    assert(ignore@ =~= ignore_harts_name());
    same(name, ignore.as_slice())
}

/// The bits of the harts that are to be ignored.
fn ignored(words: &Vec<Vec<u8>>) -> (r: u64)
    requires
        words@.len() > 1 ==> (number(views(words@)[1]) matches Some(n) ==> n < 64),
    ensures
        r == hart_mask(piece(views(words@), 1)),
{
    if words.len() > 1 {
        assert(words@[1]@ == views(words@)[1]);
        match parse_number(words[1].as_slice()) {
            Some(n) => 1u64 << n,
            None => 0,
        }
    } else {
        0
    }
}

proof fn lemma_no_harts(x: u64)
    by (bit_vector)
    ensures
        x ^ 0 == x,
{
}

impl LogFilter {
    /// Everything down to information is shown, from every hart.
    pub fn new() -> (r: Self)
        ensures
            r@ == (LogView {
                hart_filter: u64::MAX,
                log_level: LevelFilter::Info,
                filters: None,
            }),
    {
        LogFilter { hart_filter: u64::MAX, log_level: LevelFilter::Info, filters: None }
    }
}

/// Change what is shown as a text says, if there is one: parts with commas
/// between them, each the name of a level, or of a part of the kernel with
/// or without a level behind an equals sign, or a hart to be ignored.
pub fn parse_log_filter(log: &mut LogFilter, filter: Option<&[u8]>)
    requires
        filter matches Some(text) ==> forall|i: int|
            0 <= i < pieces(text@, 0x2c).len() ==> harts_fit(
                #[trigger] pieces(text@, 0x2c)[i],
            ),
    ensures
        filter is None ==> final(log)@ == old(log)@,
        filter matches Some(text) ==> final(log)@ == text_parsed(old(log)@, text@),
{
    let text: &[u8] = match filter {
        Some(text) => text,
        None => {
            return;
        },
    };
    let parts = split(text, 0x2c);
    let mut map: Vec<Filter> = Vec::new();
    let ghost first = Parsed {
        hart_filter: log.hart_filter,
        log_level: log.log_level,
        filters: Seq::empty(),
    };
    assert(filter_views(map@) =~= Seq::empty());
    let mut i: usize = 0;
    while i < parts.len()
        invariant
            i <= parts@.len(),
            views(parts@) == pieces(text@, 0x2c),
            forall|i: int|
                0 <= i < pieces(text@, 0x2c).len() ==> harts_fit(
                    #[trigger] pieces(text@, 0x2c)[i],
                ),
            parts_parsed(first, views(parts@), i as int) == (Parsed {
                hart_filter: log.hart_filter,
                log_level: log.log_level,
                filters: filter_views(map@),
            }),
        decreases parts@.len() - i,
    {
        assert(parts@[i as int]@ == views(parts@)[i as int]);
        assert(harts_fit(pieces(text@, 0x2c)[i as int]));
        let words = split(parts[i].as_slice(), 0x3d);
        assert(words@[0]@ == views(words@)[0]);
        if is_ignore_harts(words[0].as_slice()) {
            let mask: u64 = ignored(&words);
            proof {
                lemma_no_harts(log.hart_filter);
            }
            log.hart_filter = log.hart_filter ^ mask;
            add_filter(&mut map, &words, 2);
        } else {
            match level_from_str(words[0].as_slice()) {
                Some(level) => {
                    log.log_level = level;
                },
                None => {
                    add_filter(&mut map, &words, 1);
                },
            }
        }
        i += 1;
    }
    log.filters = Some(map);
}

/// Whether `name` is what `target` begins with.
pub open spec fn begins(target: Seq<u8>, name: Seq<u8>) -> bool {
    name.len() <= target.len() && target.take(name.len() as int) =~= name
}

/// The filter, of the first `n`, that applies to a part of the kernel: the one
/// with the shortest name that the part's name begins with.
pub open spec fn applying(filters: Seq<FilterView>, target: Seq<u8>, n: int) -> Option<int>
    decreases n,
{
    if n <= 0 {
        None
    } else {
        let before = applying(filters, target, n - 1);
        let this = filters[n - 1];
        if begins(target, this.name) && (before matches Some(b) ==> this.name.len()
            < filters[b].name.len()) {
            Some(n - 1)
        } else {
            before
        }
    }
}

/// Whether a record of the given rank is shown.
pub open spec fn shown(log: LogView, hart: u64, rank: int, target: Seq<u8>) -> bool {
    &&& log.hart_filter & (1u64 << hart) != 0
    &&& match log.filters {
        Some(filters) => match applying(filters, target, filters.len() as int) {
            Some(i) => match filters[i].level {
                Some(level) => rank <= level.rank(),
                None => rank <= log.log_level.rank(),
            },
            None => rank <= log.log_level.rank(),
        },
        None => rank <= log.log_level.rank(),
    }
}

/// Whether `name` is what `target` begins with.
fn starts_with(target: &[u8], name: &[u8]) -> (r: bool)
    ensures
        r == begins(target@, name@),
{
    if name.len() > target.len() {
        return false;
    }
    let mut i: usize = 0;
    while i < name.len()
        invariant
            i <= name@.len() <= target@.len(),
            forall|j: int| 0 <= j < i ==> target@[j] == name@[j],
        decreases name@.len() - i,
    {
        if target[i] != name[i] {
            assert(target@.take(name@.len() as int)[i as int] != name@[i as int]);
            return false;
        }
        i += 1;
    }
    assert(target@.take(name@.len() as int) =~= name@);
    true
}

/// The filter that applies to a part of the kernel.
fn find_filter(filters: &Vec<Filter>, target: &[u8]) -> (r: Option<usize>)
    ensures
        r is Some <==> applying(filter_views(filters@), target@, filters@.len() as int) is Some,
        r matches Some(i) ==> i < filters@.len() && applying(
            filter_views(filters@),
            target@,
            filters@.len() as int,
        ) == Some(i as int),
{
    let ghost all = filter_views(filters@);
    let mut best: Option<usize> = None;
    let mut i: usize = 0;
    while i < filters.len()
        invariant
            i <= filters@.len(),
            all == filter_views(filters@),
            best is Some <==> applying(all, target@, i as int) is Some,
            best matches Some(b) ==> b < i && applying(all, target@, i as int) == Some(b as int),
        decreases filters@.len() - i,
    {
        assert(all[i as int] == filters@[i as int]@);
        if starts_with(target, filters[i].name.as_slice()) {
            match best {
                Some(b) => {
                    assert(all[b as int] == filters@[b as int]@);
                    if filters[i].name.len() < filters[b].name.len() {
                        best = Some(i);
                    }
                },
                None => {
                    best = Some(i);
                },
            }
        }
        i += 1;
    }
    best
}

impl LogFilter {
    /// Whether a record of the given level, from the given hart and part of the
    /// kernel, is shown.
    pub fn enabled(&self, hart: u64, level: LevelFilter, target: &[u8]) -> (r: bool)
        requires
            hart < 64,
        ensures
            r == shown(self@, hart, level.rank(), target@),
    {
        if self.hart_filter & (1u64 << hart) == 0 {
            return false;
        }
        match &self.filters {
            Some(filters) => match find_filter(filters, target) {
                Some(i) => {
                    assert(filter_views(filters@)[i as int] == filters@[i as int]@);
                    match filters[i].level {
                        Some(max) => level.number() <= max.number(),
                        None => level.number() <= self.log_level.number(),
                    }
                },
                None => level.number() <= self.log_level.number(),
            },
            None => level.number() <= self.log_level.number(),
        }
    }
}

proof fn lemma_hart_bits(filter: u64, hart: u64, other: u64)
    by (bit_vector)
    requires
        hart < 64,
        other < 64,
    ensures
        (filter & (1u64 << hart) != 0) != ((filter ^ (1u64 << hart)) & (1u64 << hart) != 0),
        hart != other ==> (filter ^ (1u64 << hart)) & (1u64 << other) == filter & (1u64 << other),
{
}

/// Naming a hart to be ignored turns the records of that hart off or on again,
/// and those of no other hart.
pub proof fn law_ignored_hart(filter: u64, list: Seq<u8>, hart: u64, other: u64)
    requires
        number(list) == Some(hart),
        hart < 64,
        other < 64,
        hart != other,
    ensures
        ({
            let after = filter ^ hart_mask(Some(list));
            &&& (filter & (1u64 << hart) != 0) != (after & (1u64 << hart) != 0)
            &&& after & (1u64 << other) == filter & (1u64 << other)
        }),
{
    lemma_hart_bits(filter, hart, other);
}

/// The filter that applies is one whose name the part's name begins with, and
/// none has a shorter such name.
pub proof fn law_applying_is_shortest(filters: Seq<FilterView>, target: Seq<u8>, n: int)
    requires
        0 <= n <= filters.len(),
    ensures
        applying(filters, target, n) matches Some(b) ==> {
            &&& 0 <= b < n
            &&& begins(target, filters[b].name)
            &&& forall|i: int|
                0 <= i < n && begins(target, (#[trigger] filters[i]).name)
                    ==> filters[b].name.len() <= filters[i].name.len()
        },
        applying(filters, target, n) is None ==> forall|i: int|
            0 <= i < n ==> !begins(target, (#[trigger] filters[i]).name),
    decreases n,
{
    if n > 0 {
        law_applying_is_shortest(filters, target, n - 1);
    }
}

/// Pieces with a separator between each two of them.
pub open spec fn separated(words: Seq<Seq<u8>>, sep: u8) -> Seq<u8>
    decreases words.len(),
{
    if words.len() == 0 {
        Seq::empty()
    } else if words.len() == 1 {
        words[0]
    } else {
        words[0] + seq![sep] + separated(words.skip(1), sep)
    }
}

/// The pieces of a text, with the separators between them, are the text; and the separator
/// is in none of them.
#[verifier::spinoff_prover]
#[verifier::rlimit(50)]
pub proof fn law_pieces_are_the_text(s: Seq<u8>, sep: u8)
    ensures
        pieces(s, sep).len() > 0,
        separated(pieces(s, sep), sep) == s,
        forall|i: int| 0 <= i < pieces(s, sep).len() ==> !(#[trigger] pieces(s, sep)[i]).contains(sep),
    decreases s.len(),
{
    let k = next_sep(s, sep, 0);
    lemma_first_sep(s, sep, 0);
    let words = pieces(s, sep);
    if k < s.len() {
        law_pieces_are_the_text(s.skip(k + 1), sep);
        let rest = pieces(s.skip(k + 1), sep);
        assert(words.skip(1) =~= rest);
        assert(s =~= s.take(k) + seq![sep] + s.skip(k + 1));
        assert forall|i: int| 0 <= i < words.len() implies !(#[trigger] words[i]).contains(
            sep,
        ) by {
            if i > 0 {
                assert(words[i] == rest[i - 1]);
            } else if words[0].contains(sep) {
                assert(s[words[0].index_of(sep)] == sep);
            }
        }
    } else if s.contains(sep) {
        assert(s[s.index_of(sep)] == sep);
    }
}

proof fn lemma_first_sep(s: Seq<u8>, sep: u8, i: int)
    requires
        0 <= i <= s.len(),
    ensures
        i <= next_sep(s, sep, i) <= s.len(),
        forall|j: int| i <= j < next_sep(s, sep, i) ==> s[j] != sep,
        next_sep(s, sep, i) < s.len() ==> s[next_sep(s, sep, i)] == sep,
    decreases s.len() - i,
{
    if i < s.len() && s[i] != sep {
        lemma_first_sep(s, sep, i + 1);
    }
}

/// A text without the separator is one piece; what stands before the first separator is the
/// first piece, and the others are those of what stands behind it.
proof fn lemma_split(name: Seq<u8>, rest: Seq<u8>, sep: u8)
    requires
        !name.contains(sep),
    ensures
        pieces(name, sep) == seq![name],
        pieces(name + seq![sep] + rest, sep) == seq![name] + pieces(rest, sep),
{
    let s = name + seq![sep] + rest;
    lemma_first_sep(name, sep, 0);
    lemma_first_sep(s, sep, 0);
    let k = next_sep(s, sep, 0);
    assert(s[name.len() as int] == sep);
    if k < name.len() {
        assert(name[k] == sep);
    }
    if next_sep(name, sep, 0) < name.len() {
        assert(name[next_sep(name, sep, 0)] == sep);
    }
    assert(k == name.len());
    assert(s.take(k) =~= name);
    assert(s.skip(k + 1) =~= rest);
}

/// The bytes of a text of ASCII characters.
pub open spec fn ascii(text: Seq<char>) -> Seq<u8> {
    text.map_values(|c: char| c as u8)
}

/// The levels have these names, and no others; and each lets through what the ones before it
/// do.
#[verifier::spinoff_prover]
#[verifier::rlimit(50)]
pub proof fn law_levels_have_names(name: Seq<u8>)
    ensures
        LevelFilter::named(name) == Some(LevelFilter::Off) <==> name == ascii("off"@),
        LevelFilter::named(name) == Some(LevelFilter::Error) <==> name == ascii("error"@),
        LevelFilter::named(name) == Some(LevelFilter::Warn) <==> name == ascii("warn"@),
        LevelFilter::named(name) == Some(LevelFilter::Info) <==> name == ascii("info"@),
        LevelFilter::named(name) == Some(LevelFilter::Debug) <==> name == ascii("debug"@),
        LevelFilter::named(name) == Some(LevelFilter::Trace) <==> name == ascii("trace"@),
        LevelFilter::Off.rank() < LevelFilter::Error.rank() < LevelFilter::Warn.rank()
            < LevelFilter::Info.rank() < LevelFilter::Debug.rank() < LevelFilter::Trace.rank(),
        ignore_harts_name() == ascii("ignore-harts"@),
{
    reveal_strlit("off");
    reveal_strlit("error");
    reveal_strlit("warn");
    reveal_strlit("info");
    reveal_strlit("debug");
    reveal_strlit("trace");
    reveal_strlit("ignore-harts");
    assert(off_name() =~= ascii("off"@));
    assert(error_name() =~= ascii("error"@));
    assert(warn_name() =~= ascii("warn"@));
    assert(info_name() =~= ascii("info"@));
    assert(debug_name() =~= ascii("debug"@));
    assert(trace_name() =~= ascii("trace"@));
    assert(ignore_harts_name() =~= ascii("ignore-harts"@));
    assert(off_name().len() == 3 && info_name().len() == 4 && warn_name().len() == 4);
    assert(error_name().len() == 5 && debug_name().len() == 5 && trace_name().len() == 5);
    assert(info_name()[0] == 0x69 && warn_name()[0] == 0x77);
    assert(error_name()[0] == 0x65 && debug_name()[0] == 0x64 && trace_name()[0] == 0x74);
}

/// A text that is the name of a level sets that level, and nothing else; one that is a name,
/// an equals sign and the name of a level sets the level of what has that name, and nothing
/// else.
#[verifier::spinoff_prover]
#[verifier::rlimit(50)]
pub proof fn law_text_sets_levels(log: LogView, name: Seq<u8>, level: Seq<u8>)
    requires
        !name.contains(0x2c) && !name.contains(0x3d),
        !level.contains(0x2c) && !level.contains(0x3d),
        LevelFilter::named(level) is Some,
        LevelFilter::named(name) is None,
        name != ignore_harts_name(),
    ensures
        ({
            let after = text_parsed(log, level);
            &&& after.log_level == LevelFilter::named(level)->0
            &&& after.hart_filter == log.hart_filter
            &&& after.filters == Some(Seq::<FilterView>::empty())
        }),
        ({
            let after = text_parsed(log, name + seq![0x3du8] + level);
            &&& after.log_level == log.log_level
            &&& after.hart_filter == log.hart_filter
            &&& after.filters == Some(
                seq![FilterView { name, level: Some(LevelFilter::named(level)->0) }],
            )
        }),
{
    let text = name + seq![0x3du8] + level;
    reveal_with_fuel(parts_parsed, 3);
    lemma_split(level, Seq::empty(), 0x2c);
    lemma_split(level, Seq::empty(), 0x3d);
    assert(!text.contains(0x2c)) by {
        if text.contains(0x2c) {
            let i = text.index_of(0x2c);
            if i < name.len() {
                assert(name[i] == 0x2c);
            } else if i > name.len() {
                assert(level[i - name.len() - 1] == 0x2c);
            }
        }
    }
    lemma_split(text, Seq::empty(), 0x2c);
    lemma_split(name, level, 0x3d);
    assert(!(level =~= ignore_harts_name())) by {
        law_levels_have_names(level);
        assert(ignore_harts_name().len() == 12);
        if level =~= ignore_harts_name() {
            assert(level[6] == 0x2d);
        }
    }
    assert(pieces(level, 0x3d)[0] == level);
    let words = pieces(text, 0x3d);
    assert(words[0] == name && words[1] == level && words.len() == 2);
    let none = Seq::<FilterView>::empty();
    assert(index_of(none, name, 0) == 0);
    assert(inserted(none, name, LevelFilter::named(level)) =~= seq![
        FilterView { name, level: LevelFilter::named(level) },
    ]);
}

/// A number is read digit by digit: digits in front of others are worth ten times as much for
/// each of those.
pub proof fn law_digits_have_weights(front: Seq<u8>, digit: u8, back: Seq<u8>)
    ensures
        decimal(front + back) == decimal(front) * vstd::arithmetic::power::pow(10, back.len())
            + decimal(back),
        decimal(seq![digit]) == digit - 0x30,
    decreases back.len(),
{
    reveal_with_fuel(decimal, 2);
    reveal(vstd::arithmetic::power::pow);
    assert(seq![digit].drop_last() =~= Seq::<u8>::empty());
    if back.len() == 0 {
        assert(front + back =~= front);
        assert(vstd::arithmetic::power::pow(10, 0) == 1);
        assert(decimal(front) * 1 == decimal(front));
    } else {
        let all = front + back;
        assert(all.drop_last() =~= front + back.drop_last());
        law_digits_have_weights(front, digit, back.drop_last());
        let n = (back.len() - 1) as nat;
        let w = vstd::arithmetic::power::pow(10, n);
        assert(vstd::arithmetic::power::pow(10, back.len()) == 10 * w);
        let f = decimal(front);
        assert((f * w) * 10 == f * (10 * w)) by (nonlinear_arith);
    }
}

/// The time of a clock whose frequency divides the nanoseconds of a second is told in seconds
/// and thousandths of a second, rounded down.
pub proof fn law_time_is_told(time: int, freq: int)
    requires
        0 <= time,
        0 < freq,
        1_000_000_000int % freq == 0,
    ensures
        ({
            let (s, ms) = time_of(time, freq);
            &&& 0 <= ms < 1000
            &&& s * 1000 + ms == (time * 1000) / freq
        }),
{
    let k = 1_000_000_000int / freq;
    assert(k * freq == 1_000_000_000) by (nonlinear_arith)
        requires
            1_000_000_000int % freq == 0,
            0 < freq,
            k == 1_000_000_000int / freq,
    ;
    let ns = time * k;
    assert(0 <= ns) by (nonlinear_arith)
        requires
            0 <= time,
            ns == time * k,
            k == 1_000_000_000int / freq,
            0 < freq,
    ;
    let q = ns / 1_000_000;
    assert(ns / 1_000_000_000 * 1000 + ns % 1_000_000_000 / 1_000_000 == q);
    assert((time * 1000) / freq == q) by (nonlinear_arith)
        requires
            k * freq == 1_000_000_000,
            ns == time * k,
            q == ns / 1_000_000,
            0 < freq,
            0 <= time,
    {
        assert(q * 1_000_000 <= time * k < (q + 1) * 1_000_000);
        assert(q * 1_000_000 * freq <= time * k * freq < (q + 1) * 1_000_000 * freq);
        assert(time * k * freq == time * (k * freq));
        assert(q * freq <= time * 1000 < (q + 1) * freq);
    }
}

/// A line is shown if its hart is not ignored and its rank is at most that of a level: that
/// of the filter whose name its target begins with, if there is one, and one with a level;
/// else that of the log. Of several such filters it is the one with the shortest name.
#[verifier::spinoff_prover]
#[verifier::rlimit(50)]
pub proof fn law_lines_are_shown(log: LogView, hart: u64, rank: int, target: Seq<u8>, i: int)
    requires
        hart < 64,
    ensures
        log.hart_filter & (1u64 << hart) == 0 ==> !shown(log, hart, rank, target),
        log.hart_filter & (1u64 << hart) != 0 ==> {
            &&& log.filters is None ==> (shown(log, hart, rank, target) <==> rank
                <= log.log_level.rank())
            &&& log.filters matches Some(filters) ==> {
                &&& (forall|k: int|
                    0 <= k < filters.len() ==> !begins(target, (#[trigger] filters[k]).name)) ==> (
                shown(log, hart, rank, target) <==> rank <= log.log_level.rank())
                &&& 0 <= i < filters.len() && begins(target, filters[i].name) && (forall|k: int|
                    0 <= k < filters.len() && k != i && begins(target, (#[trigger] filters[k]).name)
                        ==> filters[i].name.len() < filters[k].name.len()) ==> (shown(
                    log,
                    hart,
                    rank,
                    target,
                ) <==> rank <= match filters[i].level {
                    Some(level) => level.rank(),
                    None => log.log_level.rank(),
                })
            }
        },
{
    if let Some(filters) = log.filters {
        law_applying_is_shortest(filters, target, filters.len() as int);
        if 0 <= i < filters.len() {
            let _ = filters[i];
        }
    }
}

} // verus!
