//! The response parser: its result record, the specification of what a
//! response text means, and the verified line scanner.

use vstd::prelude::*;

use crate::text::find_char;
use crate::text::is_space;
use crate::text::starts_with;
use crate::text::trim;
use crate::text::trim_start;
use vstd::string::StringExecFns;

verus! {

/// The outcome of parsing one WHOIS response.
#[derive(Debug, Clone, PartialEq)]
pub struct WhoIs {
    /// The queried domain, echoed unmodified.
    pub domain: String,
    /// Registry-reported expiry, as seconds since the Unix epoch (UTC);
    /// absent when no recognized date line parsed.
    pub expiration_date: Option<i64>,
    /// True once any recognized expiration-date line has parsed.
    pub is_registered: bool,
    /// True when a status line reports the ICANN redemption period.
    pub is_under_grace_period: bool,
}

/// The mathematical shadow of [`WhoIs`].
pub struct WhoIsView {
    pub domain: Seq<char>,
    pub expiration_date: Option<int>,
    pub is_registered: bool,
    pub is_under_grace_period: bool,
}

impl View for WhoIs {
    type V = WhoIsView;

    open spec fn view(&self) -> WhoIsView {
        WhoIsView {
            domain: self.domain@,
            expiration_date: match self.expiration_date {
                Some(t) => Some(t as int),
                None => None,
            },
            is_registered: self.is_registered,
            is_under_grace_period: self.is_under_grace_period,
        }
    }
}

/// The record every parse starts from: nothing found yet.
pub open spec fn init_record(domain: Seq<char>) -> WhoIsView {
    WhoIsView { domain, expiration_date: None, is_registered: false, is_under_grace_period: false }
}

/// A trimmed line reporting that the domain is not registered; it ends the
/// scan.
pub open spec fn is_terminator_line(line: Seq<char>) -> bool {
    ||| starts_with(line, "Domain not found."@)
    ||| starts_with(line, "Domain not registered."@)
    ||| starts_with(line, "No match for"@)
    ||| starts_with(line, "% No entries found for query"@)
}

/// The value of a line that starts with prefix `p`: the remainder with the
/// separating whitespace removed. There must be at least one whitespace
/// character between prefix and value.
pub open spec fn value_after(line: Seq<char>, p: Seq<char>) -> Option<Seq<char>>
    recommends
        starts_with(line, p),
{
    let rest = line.subrange(p.len() as int, line.len() as int);
    if rest.len() > 0 && is_space(rest[0]) {
        Some(trim_start(rest))
    } else {
        None
    }
}

/// The expiration instant a trimmed line encodes, if it is a recognized,
/// well-formed expiration-date line in one of the four registry formats.
pub open spec fn line_expiry_secs(line: Seq<char>) -> Option<int> {
    if starts_with(line, "Registry Expiry Date:"@) {
        match value_after(line, "Registry Expiry Date:"@) {
            Some(v) => crate::dates::iso_secs(v),
            None => None,
        }
    } else if starts_with(line, "Expiry date:"@) {
        match value_after(line, "Expiry date:"@) {
            Some(v) => crate::dates::dmy_secs(v),
            None => None,
        }
    } else if starts_with(line, "expires:"@) {
        match value_after(line, "expires:"@) {
            Some(v) => crate::dates::mdy_secs(v),
            None => None,
        }
    } else if starts_with(line, "Expiration date:"@) {
        match value_after(line, "Expiration date:"@) {
            Some(v) => crate::dates::dmy_hms_secs(v),
            None => None,
        }
    } else {
        None
    }
}

/// Whether a trimmed line is the domain-status line that reports the ICANN
/// redemption period.
pub open spec fn is_grace_line(line: Seq<char>) -> bool {
    starts_with(line, "Domain Status:"@) && value_after(line, "Domain Status:"@) == Some(
        "redemptionPeriod https://icann.org/epp#redemptionPeriod"@,
    )
}

/// How one trimmed, non-terminator line changes the record: a recognized
/// expiration-date line whose date parses sets the registration flag and the
/// instant; the redemption-period status line sets the grace flag; every
/// other line - a malformed date included - changes nothing.
pub open spec fn step_line(st: WhoIsView, line: Seq<char>) -> WhoIsView {
    if starts_with(line, "Registry Expiry Date:"@) || starts_with(line, "Expiry date:"@)
        || starts_with(line, "expires:"@) || starts_with(line, "Expiration date:"@) {
        match line_expiry_secs(line) {
            Some(t) => WhoIsView { is_registered: true, expiration_date: Some(t), ..st },
            None => st,
        }
    } else if is_grace_line(line) {
        WhoIsView { is_under_grace_period: true, ..st }
    } else {
        st
    }
}

/// The response text parted at every newline; the final segment needs no
/// newline of its own.
pub open spec fn split_lines(s: Seq<char>) -> Seq<Seq<char>>
    decreases s.len(),
{
    let i = find_char(s, '\n');
    if 0 <= i < s.len() {
        seq![s.subrange(0, i)] + split_lines(s.subrange(i + 1, s.len() as int))
    } else {
        seq![s]
    }
}

/// The whole scan: lines are trimmed and handled in order until a
/// not-registered terminator stops it or the text runs out.
pub open spec fn scan_lines(st: WhoIsView, lines: Seq<Seq<char>>) -> WhoIsView
    decreases lines.len(),
{
    if lines.len() == 0 {
        st
    } else {
        let line = trim(lines[0]);
        if is_terminator_line(line) {
            st
        } else {
            scan_lines(step_line(st, line), lines.drop_first())
        }
    }
}

/// What parsing a response text for `domain` yields.
pub open spec fn spec_parse(domain: Seq<char>, text: Seq<char>) -> WhoIsView {
    scan_lines(init_record(domain), split_lines(text))
}

/// A prefix fixes the first character of the line it heads.
proof fn lemma_prefix_first_char(line: Seq<char>, p: Seq<char>)
    requires
        starts_with(line, p),
        p.len() > 0,
    ensures
        line.len() > 0 && line[0] == p[0],
{
    assert(line.subrange(0, p.len() as int)[0] == line[0]);
}

/// Searching a compound keeps a hit found in its first part.
proof fn lemma_find_char_prefix(a: Seq<char>, b: Seq<char>, c: char)
    requires
        find_char(a, c) < a.len(),
    ensures
        find_char(a + b, c) == find_char(a, c),
    decreases a.len(),
{
    crate::text::lemma_find_char_bounds(a, c);
    if a.len() > 0 {
        assert((a + b)[0] == a[0]);
        if a[0] != c {
            lemma_find_char_prefix(a.drop_first(), b, c);
            assert((a + b).drop_first() =~= a.drop_first() + b);
        }
    }
}

/// When the first part holds no hit, the separator itself is found first.
proof fn lemma_find_char_at_sep(a: Seq<char>, b: Seq<char>, c: char)
    requires
        find_char(a, c) == a.len(),
    ensures
        find_char(a + seq![c] + b, c) == a.len(),
    decreases a.len(),
{
    crate::text::lemma_find_char_bounds(a, c);
    if a.len() == 0 {
        assert((a + seq![c] + b)[0] == c);
    } else {
        assert(a[0] != c);
        assert((a + seq![c] + b)[0] == a[0]);
        lemma_find_char_at_sep(a.drop_first(), b, c);
        assert((a + seq![c] + b).drop_first() =~= a.drop_first() + seq![c] + b);
    }
}

/// Splitting joined texts splits each in turn: a newline seals the last
/// segment of the first part.
proof fn lemma_split_lines_concat(a: Seq<char>, b: Seq<char>)
    ensures
        split_lines(a + seq!['\n'] + b) == split_lines(a) + split_lines(b),
    decreases a.len(),
{
    let s = a + seq!['\n'] + b;
    let i = find_char(a, '\n');
    crate::text::lemma_find_char_bounds(a, '\n');
    if i < a.len() {
        lemma_find_char_prefix(a, seq!['\n'] + b, '\n');
        assert(s =~= a + (seq!['\n'] + b));
        assert(find_char(s, '\n') == i);
        assert(s.subrange(0, i) =~= a.subrange(0, i));
        assert(s.subrange(i + 1, s.len() as int) =~= a.subrange(i + 1, a.len() as int)
            + seq!['\n'] + b);
        lemma_split_lines_concat(a.subrange(i + 1, a.len() as int), b);
        assert(split_lines(s) =~= split_lines(a) + split_lines(b));
    } else {
        lemma_find_char_at_sep(a, b, '\n');
        assert(find_char(s, '\n') == a.len());
        assert(s.subrange(0, a.len() as int) =~= a);
        assert(s.subrange(a.len() as int + 1, s.len() as int) =~= b);
        assert(split_lines(s) =~= split_lines(a) + split_lines(b));
    }
}

/// The scan never reads past a terminator line, wherever it stands.
proof fn lemma_scan_stops(
    st: WhoIsView,
    pre: Seq<Seq<char>>,
    term: Seq<char>,
    post: Seq<Seq<char>>,
)
    requires
        is_terminator_line(trim(term)),
    ensures
        scan_lines(st, pre + seq![term] + post) == scan_lines(st, pre + seq![term]),
    decreases pre.len(),
{
    let l1 = pre + seq![term] + post;
    let l2 = pre + seq![term];
    if pre.len() == 0 {
        assert(l1[0] == term);
        assert(l2[0] == term);
    } else {
        assert(l1[0] == pre[0]);
        assert(l2[0] == pre[0]);
        let line = trim(pre[0]);
        if !is_terminator_line(line) {
            lemma_scan_stops(step_line(st, line), pre.drop_first(), term, post);
            assert(l1.drop_first() =~= pre.drop_first() + seq![term] + post);
            assert(l2.drop_first() =~= pre.drop_first() + seq![term]);
        }
    }
}

/// What one line does to the record, whatever came before it: a recognized
/// expiration-date line whose value parses sets the registration flag and
/// the exact instant the value encodes; any other line - a recognized
/// prefix with a malformed date included - leaves both untouched; the grace
/// flag is set by the redemption-period status line alone and never
/// cleared; the domain is never touched.
pub proof fn lemma_step_line_effect(st: WhoIsView, line: Seq<char>)
    ensures
        line_expiry_secs(line) is Some ==> step_line(st, line) == (WhoIsView {
            is_registered: true,
            expiration_date: line_expiry_secs(line),
            ..st
        }),
        line_expiry_secs(line) is None ==> step_line(st, line).is_registered == st.is_registered
            && step_line(st, line).expiration_date == st.expiration_date,
        step_line(st, line).is_under_grace_period == (st.is_under_grace_period || is_grace_line(
            line,
        )),
        step_line(st, line).domain == st.domain,
{
    reveal_strlit("Registry Expiry Date:");
    reveal_strlit("Expiry date:");
    reveal_strlit("expires:");
    reveal_strlit("Expiration date:");
    reveal_strlit("Domain Status:");
    if starts_with(line, "Registry Expiry Date:"@) {
        lemma_prefix_first_char(line, "Registry Expiry Date:"@);
        assert(!starts_with(line, "Domain Status:"@)) by {
            if starts_with(line, "Domain Status:"@) {
                lemma_prefix_first_char(line, "Domain Status:"@);
            }
        }
    } else if starts_with(line, "Expiry date:"@) {
        lemma_prefix_first_char(line, "Expiry date:"@);
        assert(!starts_with(line, "Domain Status:"@)) by {
            if starts_with(line, "Domain Status:"@) {
                lemma_prefix_first_char(line, "Domain Status:"@);
            }
        }
    } else if starts_with(line, "expires:"@) {
        lemma_prefix_first_char(line, "expires:"@);
        assert(!starts_with(line, "Domain Status:"@)) by {
            if starts_with(line, "Domain Status:"@) {
                lemma_prefix_first_char(line, "Domain Status:"@);
            }
        }
    } else if starts_with(line, "Expiration date:"@) {
        lemma_prefix_first_char(line, "Expiration date:"@);
        assert(!starts_with(line, "Domain Status:"@)) by {
            if starts_with(line, "Domain Status:"@) {
                lemma_prefix_first_char(line, "Domain Status:"@);
            }
        }
    }
}

/// Within one parse nothing is ever retracted: flags only become true, a
/// found expiration instant is never cleared, and the domain is echoed
/// untouched through every line.
pub proof fn lemma_scan_monotonic(st: WhoIsView, lines: Seq<Seq<char>>)
    ensures
        scan_lines(st, lines).domain == st.domain,
        st.is_registered ==> scan_lines(st, lines).is_registered,
        st.is_under_grace_period ==> scan_lines(st, lines).is_under_grace_period,
        st.expiration_date is Some ==> scan_lines(st, lines).expiration_date is Some,
    decreases lines.len(),
{
    if lines.len() > 0 {
        let line = trim(lines[0]);
        if !is_terminator_line(line) {
            lemma_step_line_effect(st, line);
            lemma_scan_monotonic(step_line(st, line), lines.drop_first());
        }
    }
}

/// Every line after a not-registered terminator line is disregarded: the
/// result is that of the text up to and including the terminator line.
pub proof fn lemma_text_after_terminator_ignored(
    domain: Seq<char>,
    before: Seq<char>,
    term: Seq<char>,
    after: Seq<char>,
)
    requires
        find_char(term, '\n') == term.len(),
        is_terminator_line(trim(term)),
    ensures
        spec_parse(domain, before + seq!['\n'] + term + seq!['\n'] + after) == spec_parse(
            domain,
            before + seq!['\n'] + term,
        ),
{
    crate::text::lemma_find_char_bounds(term, '\n');
    assert(split_lines(term) == seq![term]);
    lemma_split_lines_concat(before, term + seq!['\n'] + after);
    lemma_split_lines_concat(term, after);
    lemma_split_lines_concat(before, term);
    assert(before + seq!['\n'] + term + seq!['\n'] + after =~= before + seq!['\n'] + (term
        + seq!['\n'] + after));
    lemma_scan_stops(init_record(domain), split_lines(before), term, split_lines(after));
    assert(split_lines(before) + (seq![term] + split_lines(after)) =~= split_lines(before)
        + seq![term] + split_lines(after));
    assert(split_lines(before) + split_lines(term) =~= split_lines(before) + seq![term]);
}

/// A response whose first line reports that the domain is not registered
/// yields the default record - not registered, no expiration date, no grace
/// period - whatever the rest of the text holds.
pub proof fn lemma_terminator_first_line(domain: Seq<char>, term: Seq<char>, rest: Seq<char>)
    requires
        find_char(term, '\n') == term.len(),
        is_terminator_line(trim(term)),
    ensures
        spec_parse(domain, term + seq!['\n'] + rest) == init_record(domain),
{
    crate::text::lemma_find_char_bounds(term, '\n');
    assert(split_lines(term) == seq![term]);
    lemma_split_lines_concat(term, rest);
    assert((seq![term] + split_lines(rest))[0] == term);
}

/// An expiration-date line is never a not-registered terminator: their
/// prefixes differ in their first character.
proof fn lemma_expiry_line_not_terminator(line: Seq<char>)
    requires
        line_expiry_secs(line) is Some,
    ensures
        !is_terminator_line(line),
{
    reveal_strlit("Registry Expiry Date:");
    reveal_strlit("Expiry date:");
    reveal_strlit("expires:");
    reveal_strlit("Expiration date:");
    reveal_strlit("Domain not found.");
    reveal_strlit("Domain not registered.");
    reveal_strlit("No match for");
    reveal_strlit("% No entries found for query");
    if starts_with(line, "Registry Expiry Date:"@) {
        lemma_prefix_first_char(line, "Registry Expiry Date:"@);
    } else if starts_with(line, "Expiry date:"@) {
        lemma_prefix_first_char(line, "Expiry date:"@);
    } else if starts_with(line, "expires:"@) {
        lemma_prefix_first_char(line, "expires:"@);
    } else {
        lemma_prefix_first_char(line, "Expiration date:"@);
    }
    if starts_with(line, "Domain not found."@) {
        lemma_prefix_first_char(line, "Domain not found."@);
    }
    if starts_with(line, "Domain not registered."@) {
        lemma_prefix_first_char(line, "Domain not registered."@);
    }
    if starts_with(line, "No match for"@) {
        lemma_prefix_first_char(line, "No match for"@);
    }
    if starts_with(line, "% No entries found for query"@) {
        lemma_prefix_first_char(line, "% No entries found for query"@);
    }
}

/// A response that is one well-formed expiration-date line, in any of the
/// four formats, parses to a registered record holding exactly the instant
/// the line encodes, with the domain echoed and no grace period.
pub proof fn lemma_single_expiry_line(domain: Seq<char>, line: Seq<char>, t: int)
    requires
        find_char(line, '\n') == line.len(),
        line_expiry_secs(trim(line)) == Some(t),
    ensures
        spec_parse(domain, line) == (WhoIsView {
            is_registered: true,
            expiration_date: Some(t),
            ..init_record(domain)
        }),
{
    crate::text::lemma_find_char_bounds(line, '\n');
    assert(split_lines(line) == seq![line]);
    lemma_expiry_line_not_terminator(trim(line));
    let st0 = init_record(domain);
    let stepped = step_line(st0, trim(line));
    lemma_step_line_effect(st0, trim(line));
    assert(stepped == (WhoIsView { is_registered: true, expiration_date: Some(t), ..st0 }));
    assert(seq![line].drop_first() =~= Seq::<Seq<char>>::empty());
    assert(scan_lines(st0, seq![line]) == scan_lines(stepped, Seq::<Seq<char>>::empty()));
    assert(scan_lines(stepped, Seq::<Seq<char>>::empty()) == stepped);
}

/// The empty line matches nothing: scanning an empty text changes nothing.
proof fn lemma_empty_scan(st: WhoIsView)
    ensures
        scan_lines(st, split_lines(Seq::<char>::empty())) == st,
{
    reveal_strlit("Domain not found.");
    reveal_strlit("Domain not registered.");
    reveal_strlit("No match for");
    reveal_strlit("% No entries found for query");
    reveal_strlit("Registry Expiry Date:");
    reveal_strlit("Expiry date:");
    reveal_strlit("expires:");
    reveal_strlit("Expiration date:");
    reveal_strlit("Domain Status:");
    let e = Seq::<char>::empty();
    assert(find_char(e, '\n') == 0);
    assert(split_lines(e) == seq![e]);
    assert(trim_start(e) =~= e);
    assert(trim(e) =~= e);
    assert(!is_terminator_line(e));
    assert(step_line(st, e) == st);
    assert(seq![e].drop_first() =~= Seq::<Seq<char>>::empty());
    assert(scan_lines(st, seq![e]) == scan_lines(st, Seq::<Seq<char>>::empty()));
}

/// The bounds of the value of the line `v[a..b]` after prefix `p`, per
/// [`value_after`].
fn value_range(v: &Vec<char>, a: usize, b: usize, p: &str) -> (r: Option<(usize, usize)>)
    requires
        a <= b <= v@.len(),
        starts_with(v@.subrange(a as int, b as int), p@),
    ensures
        ({
            let line = v@.subrange(a as int, b as int);
            match r {
                Some(cd) => a <= cd.0 <= cd.1 == b && value_after(line, p@) == Some(
                    v@.subrange(cd.0 as int, cd.1 as int),
                ),
                None => value_after(line, p@) is None,
            }
        }),
{
    let ghost line = v@.subrange(a as int, b as int);
    let n: usize = p.unicode_len();
    let i: usize = a + n;
    let ghost rest = line.subrange(p@.len() as int, line.len() as int);
    proof {
        assert(rest =~= v@.subrange(i as int, b as int));
    }
    if i < b && crate::text::space_char(v[i]) {
        proof {
            assert(rest[0] == v@[i as int]);
        }
        let c: usize = crate::text::skip_spaces(v, i, b);
        proof {
            crate::text::lemma_leading_spaces_bounds(rest);
            assert(trim_start(rest) =~= v@.subrange(c as int, b as int));
        }
        Some((c, b))
    } else {
        proof {
            if i < b {
                assert(rest[0] == v@[i as int]);
            }
        }
        None
    }
}

/// Applies one trimmed line `v[a..b]` to the record, per [`step_line`].
fn apply_line(st: WhoIs, v: &Vec<char>, a: usize, b: usize) -> (r: WhoIs)
    requires
        a <= b <= v@.len(),
    ensures
        r@ == step_line(st@, v@.subrange(a as int, b as int)),
{
    if crate::text::range_starts_with(v, a, b, "Registry Expiry Date:") {
        match value_range(v, a, b, "Registry Expiry Date:") {
            Some((c, d)) => match crate::dates::parse_iso(v, c, d) {
                Some(t) => WhoIs {
                    is_registered: true,
                    expiration_date: Some(t),
                    domain: st.domain,
                    is_under_grace_period: st.is_under_grace_period,
                },
                None => st,
            },
            None => st,
        }
    } else if crate::text::range_starts_with(v, a, b, "Expiry date:") {
        match value_range(v, a, b, "Expiry date:") {
            Some((c, d)) => match crate::dates::parse_dmy(v, c, d) {
                Some(t) => WhoIs {
                    is_registered: true,
                    expiration_date: Some(t),
                    domain: st.domain,
                    is_under_grace_period: st.is_under_grace_period,
                },
                None => st,
            },
            None => st,
        }
    } else if crate::text::range_starts_with(v, a, b, "expires:") {
        match value_range(v, a, b, "expires:") {
            Some((c, d)) => match crate::dates::parse_mdy(v, c, d) {
                Some(t) => WhoIs {
                    is_registered: true,
                    expiration_date: Some(t),
                    domain: st.domain,
                    is_under_grace_period: st.is_under_grace_period,
                },
                None => st,
            },
            None => st,
        }
    } else if crate::text::range_starts_with(v, a, b, "Expiration date:") {
        match value_range(v, a, b, "Expiration date:") {
            Some((c, d)) => match crate::dates::parse_dmy_hms(v, c, d) {
                Some(t) => WhoIs {
                    is_registered: true,
                    expiration_date: Some(t),
                    domain: st.domain,
                    is_under_grace_period: st.is_under_grace_period,
                },
                None => st,
            },
            None => st,
        }
    } else if crate::text::range_starts_with(v, a, b, "Domain Status:") {
        match value_range(v, a, b, "Domain Status:") {
            Some((c, d)) => {
                if crate::text::range_eq_str(
                    v,
                    c,
                    d,
                    "redemptionPeriod https://icann.org/epp#redemptionPeriod",
                ) {
                    WhoIs {
                        is_under_grace_period: true,
                        domain: st.domain,
                        expiration_date: st.expiration_date,
                        is_registered: st.is_registered,
                    }
                } else {
                    st
                }
            },
            None => st,
        }
    } else {
        st
    }
}

impl WhoIs {
    /// Parses the raw WHOIS response `text` returned for `domain`. A pure
    /// function of its arguments: the result is exactly what
    /// [`spec_parse`] assigns to the text, no more and no less.
    pub fn parse(domain: &str, text: &str) -> (r: WhoIs)
        ensures
            r@ == spec_parse(domain@, text@),
    {
        let v: Vec<char> = crate::text::chars_of(text);
        let n: usize = v.len();
        let mut st = WhoIs {
            domain: String::from_str(domain),
            expiration_date: None,
            is_registered: false,
            is_under_grace_period: false,
        };
        proof {
            assert(v@.subrange(0, n as int) =~= text@);
        }
        let mut pos: usize = 0;
        while pos < n
            invariant
                pos <= n == v@.len(),
                v@ == text@,
                spec_parse(domain@, text@) == scan_lines(
                    st@,
                    split_lines(v@.subrange(pos as int, n as int)),
                ),
            decreases n - pos,
        {
            let ghost remaining = v@.subrange(pos as int, n as int);
            let e: usize = crate::text::range_find(&v, pos, n, '\n');
            let ghost seg = v@.subrange(pos as int, e as int);
            proof {
                crate::text::lemma_find_char_bounds(remaining, '\n');
                assert(remaining.subrange(0, e - pos) =~= seg);
                if e < n {
                    assert(remaining.subrange((e - pos) + 1, remaining.len() as int) =~= v@
                        .subrange(e + 1, n as int));
                    assert(split_lines(remaining) == seq![seg] + split_lines(
                        v@.subrange(e + 1, n as int),
                    ));
                } else {
                    assert(split_lines(remaining) == seq![seg]);
                }
            }
            let tr: (usize, usize) = crate::text::trim_range(&v, pos, e);
            let a: usize = tr.0;
            let b: usize = tr.1;
            let t1: bool = crate::text::range_starts_with(&v, a, b, "Domain not found.");
            let t2: bool = crate::text::range_starts_with(&v, a, b, "Domain not registered.");
            let t3: bool = crate::text::range_starts_with(&v, a, b, "No match for");
            let t4: bool = crate::text::range_starts_with(&v, a, b, "% No entries found for query");
            if t1 || t2 || t3 || t4 {
                proof {
                    let lines = split_lines(remaining);
                    assert(lines[0] == seg);
                    assert(is_terminator_line(trim(seg)));
                    assert(scan_lines(st@, lines) == st@);
                }
                return st;
            }
            let ghost prev = st@;
            st = apply_line(st, &v, a, b);
            proof {
                let lines = split_lines(remaining);
                assert(lines[0] == seg);
                assert(!is_terminator_line(trim(seg)));
                assert(st@ == step_line(prev, trim(seg)));
                if e < n {
                    let rest_lines = split_lines(v@.subrange(e + 1, n as int));
                    assert(lines.drop_first() =~= rest_lines);
                    assert(scan_lines(prev, lines) == scan_lines(st@, rest_lines));
                } else {
                    assert(lines.drop_first() =~= Seq::<Seq<char>>::empty());
                    assert(scan_lines(prev, lines) == scan_lines(st@, Seq::<Seq<char>>::empty()));
                    assert(v@.subrange(n as int, n as int) =~= Seq::<char>::empty());
                    lemma_empty_scan(st@);
                }
            }
            if e < n {
                pos = e + 1;
            } else {
                pos = n;
            }
        }
        proof {
            assert(v@.subrange(n as int, n as int) =~= Seq::<char>::empty());
            lemma_empty_scan(st@);
        }
        st
    }
}

} // verus!
