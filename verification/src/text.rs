//! Text logic: decimal numbers, whitespace trimming, splitting text into
//! lines, picking links out of dropped text, and recognising event files.

use vstd::prelude::*;

verus! {

// ---------------------------------------------------------------- decimals

/// The decimal digit character for `d` (0 to 9).
pub open spec fn digit_char(d: nat) -> char {
    (48 + d) as char
}

/// The decimal digits of `n`, most significant first, without leading zeros.
pub open spec fn digits_of(n: nat) -> Seq<char>
    decreases n,
{
    if n < 10 {
        seq![digit_char(n)]
    } else {
        digits_of(n / 10).push(digit_char(n % 10))
    }
}

/// The decimal text of `n`, with a leading `-` when it is negative.
pub open spec fn decimal_text(n: int) -> Seq<char> {
    if n < 0 {
        seq!['-'] + digits_of((-n) as nat)
    } else {
        digits_of(n as nat)
    }
}

fn digit_text(d: u64) -> (s: &'static str)
    requires
        d < 10,
    ensures
        s@ == seq![digit_char(d as nat)],
{
    proof {
        reveal_strlit("0");
        reveal_strlit("1");
        reveal_strlit("2");
        reveal_strlit("3");
        reveal_strlit("4");
        reveal_strlit("5");
        reveal_strlit("6");
        reveal_strlit("7");
        reveal_strlit("8");
        reveal_strlit("9");
    }
    match d {
        0 => "0",
        1 => "1",
        2 => "2",
        3 => "3",
        4 => "4",
        5 => "5",
        6 => "6",
        7 => "7",
        8 => "8",
        _ => "9",
    }
}

/// The decimal text of `n`.
pub fn decimal(n: i64) -> (text: String)
    ensures
        text@ == decimal_text(n as int),
{
    let negative = n < 0;
    let magnitude: u64 = if negative {
        (-(n as i128)) as u64
    } else {
        n as u64
    };
    assert(magnitude as int == if n < 0 { -n } else { n as int });
    let mut m: u64 = magnitude;
    let mut acc = String::new();
    loop
        invariant_except_break
            digits_of(magnitude as nat) == digits_of(m as nat) + acc@,
        ensures
            digits_of(magnitude as nat) == acc@,
        decreases m,
    {
        let d = m % 10;
        let head = digit_text(d).to_owned();
        if m < 10 {
            acc = head.concat(acc.as_str());
            assert(digits_of(m as nat) == seq![digit_char(m as nat)]);
            assert(digits_of(magnitude as nat) =~= acc@);
            break;
        }
        acc = head.concat(acc.as_str());
        proof {
            assert(digits_of(m as nat) == digits_of((m / 10) as nat).push(digit_char((m % 10) as nat)));
            assert(digits_of(magnitude as nat) =~= digits_of((m / 10) as nat) + acc@);
        }
        m = m / 10;
    }
    if negative {
        proof {
            reveal_strlit("-");
        }
        let text = "-".to_owned().concat(acc.as_str());
        assert(text@ =~= seq!['-'] + digits_of((-n) as nat));
        text
    } else {
        acc
    }
}

// -------------------------------------------------------------- whitespace

/// Whether `c` has the Unicode `White_Space` property, which is what Rust's
/// `char::is_whitespace` and `str::trim` go by.
pub open spec fn is_white(c: char) -> bool {
    let u = c as u32;
    ||| 9 <= u <= 13
    ||| u == 32
    ||| u == 0x85
    ||| u == 0xA0
    ||| u == 0x1680
    ||| 0x2000 <= u <= 0x200A
    ||| u == 0x2028
    ||| u == 0x2029
    ||| u == 0x202F
    ||| u == 0x205F
    ||| u == 0x3000
}

/// Whether `c` has the Unicode `White_Space` property.
pub fn is_white_char(c: char) -> (white: bool)
    ensures
        white == is_white(c),
{
    let u = c as u32;
    (9 <= u && u <= 13) || u == 32 || u == 0x85 || u == 0xA0 || u == 0x1680 || (0x2000 <= u && u
        <= 0x200A) || u == 0x2028 || u == 0x2029 || u == 0x202F || u == 0x205F || u == 0x3000
}

/// How many whitespace characters `s` starts with.
pub open spec fn leading_white(s: Seq<char>) -> nat
    decreases s.len(),
{
    if s.len() > 0 && is_white(s[0]) {
        1 + leading_white(s.drop_first())
    } else {
        0
    }
}

/// How many whitespace characters `s` ends with.
pub open spec fn trailing_white(s: Seq<char>) -> nat
    decreases s.len(),
{
    if s.len() > 0 && is_white(s.last()) {
        1 + trailing_white(s.drop_last())
    } else {
        0
    }
}

/// `s` without its leading and trailing whitespace.
pub open spec fn trimmed(s: Seq<char>) -> Seq<char> {
    let t = s.skip(leading_white(s) as int);
    t.take(t.len() - trailing_white(t))
}

proof fn lemma_leading_white(s: Seq<char>, a: int)
    requires
        0 <= a <= s.len(),
        forall|i: int| 0 <= i < a ==> is_white(s[i]),
        a == s.len() || !is_white(s[a]),
    ensures
        leading_white(s) == a,
    decreases a,
{
    if a > 0 {
        lemma_leading_white(s.drop_first(), a - 1);
    }
}

proof fn lemma_trailing_white(s: Seq<char>, k: int)
    requires
        0 <= k <= s.len(),
        forall|i: int| s.len() - k <= i < s.len() ==> is_white(s[i]),
        k == s.len() || !is_white(s[s.len() - k - 1]),
    ensures
        trailing_white(s) == k,
    decreases k,
{
    if k > 0 {
        lemma_trailing_white(s.drop_last(), k - 1);
    }
}

/// `s` without its leading and trailing whitespace, as `str::trim` gives it.
pub fn trim(s: &str) -> (t: String)
    ensures
        t@ == trimmed(s@),
{
    let n = s.unicode_len();
    let mut a: usize = 0;
    while a < n && is_white_char(s.get_char(a))
        invariant
            n == s@.len(),
            a <= n,
            forall|i: int| 0 <= i < a ==> is_white(s@[i]),
        decreases n - a,
    {
        a += 1;
    }
    let mut b: usize = n;
    while b > a && is_white_char(s.get_char(b - 1))
        invariant
            n == s@.len(),
            a <= b <= n,
            forall|i: int| b <= i < n ==> is_white(s@[i]),
        decreases b,
    {
        b -= 1;
    }
    proof {
        lemma_leading_white(s@, a as int);
        let t = s@.skip(a as int);
        lemma_trailing_white(t, (n - b) as int);
        assert(t.take(t.len() - (n - b)) =~= s@.subrange(a as int, b as int));
    }
    s.substring_char(a, b).to_owned()
}

// -------------------------------------------------------------------- lines

/// The index of the first line feed in `s`, or its length when it has none.
pub open spec fn line_break_at(s: Seq<char>) -> int
    decreases s.len(),
{
    if s.len() == 0 {
        0
    } else if s[0] == '\n' {
        0
    } else {
        1 + line_break_at(s.drop_first())
    }
}

proof fn lemma_line_break_at(s: Seq<char>, k: int)
    requires
        0 <= k <= s.len(),
        forall|i: int| 0 <= i < k ==> s[i] != '\n',
        k == s.len() || s[k] == '\n',
    ensures
        line_break_at(s) == k,
    decreases k,
{
    if k > 0 {
        lemma_line_break_at(s.drop_first(), k - 1);
    }
}

/// The first line of `s`: up to the first line feed, without a carriage
/// return just before that line feed; or all of `s` when it has no line feed.
pub open spec fn first_line(s: Seq<char>) -> Seq<char> {
    let k = line_break_at(s);
    if k < s.len() {
        let line = s.take(k);
        if line.len() > 0 && line.last() == '\r' {
            line.drop_last()
        } else {
            line
        }
    } else {
        s
    }
}

/// What follows the first line feed of `s` (nothing when it has none).
pub open spec fn after_first_line(s: Seq<char>) -> Seq<char> {
    let k = line_break_at(s);
    if 0 <= k < s.len() {
        s.skip(k + 1)
    } else {
        Seq::empty()
    }
}

/// The lines of `s`, as `str::lines` gives them: split at each line feed,
/// a carriage return before a line feed dropped, and no empty last line after
/// a final line feed.
pub open spec fn text_lines(s: Seq<char>) -> Seq<Seq<char>>
    decreases s.len(),
{
    if s.len() == 0 {
        Seq::empty()
    } else {
        seq![first_line(s)] + text_lines(after_first_line(s))
    }
}

// -------------------------------------------------------------------- links

/// `http://`
pub open spec fn http_prefix() -> Seq<char> {
    seq!['h', 't', 't', 'p', ':', '/', '/']
}

/// `https://`
pub open spec fn https_prefix() -> Seq<char> {
    seq!['h', 't', 't', 'p', 's', ':', '/', '/']
}

/// Whether a line starts with `http://` or `https://`.
pub open spec fn is_link_line(line: Seq<char>) -> bool {
    http_prefix().is_prefix_of(line) || https_prefix().is_prefix_of(line)
}

/// The trimmed lines among `lines` that start with `http://` or `https://`,
/// in order.
pub open spec fn links_in(lines: Seq<Seq<char>>) -> Seq<Seq<char>>
    decreases lines.len(),
{
    if lines.len() == 0 {
        Seq::empty()
    } else {
        let rest = links_in(lines.drop_last());
        if is_link_line(lines.last()) {
            rest.push(trimmed(lines.last()))
        } else {
            rest
        }
    }
}

/// Whether `prefix` is a prefix of `s`.
pub fn starts_with(s: &str, prefix: &str) -> (r: bool)
    ensures
        r == prefix@.is_prefix_of(s@),
{
    let n = s.unicode_len();
    let m = prefix.unicode_len();
    if m > n {
        return false;
    }
    let mut i: usize = 0;
    while i < m
        invariant
            n == s@.len(),
            m == prefix@.len(),
            m <= n,
            i <= m,
            forall|k: int| 0 <= k < i ==> prefix@[k] == s@[k],
        decreases m - i,
    {
        if prefix.get_char(i) != s.get_char(i) {
            return false;
        }
        i += 1;
    }
    assert(prefix@ =~= s@.take(m as int));
    true
}

/// Whether `a` and `b` are the same text.
pub fn same_text(a: &str, b: &str) -> (r: bool)
    ensures
        r == (a@ == b@),
{
    let n = a.unicode_len();
    if n != b.unicode_len() {
        return false;
    }
    let r = starts_with(a, b);
    proof {
        if r {
            assert(a@ =~= b@);
        }
    }
    r
}

fn is_link(line: &str) -> (r: bool)
    ensures
        r == is_link_line(line@),
{
    proof {
        reveal_strlit("http://");
        reveal_strlit("https://");
        assert("http://"@ =~= http_prefix());
        assert("https://"@ =~= https_prefix());
    }
    starts_with(line, "http://") || starts_with(line, "https://")
}

/// The links in dropped text: each line (as `str::lines` splits it) that
/// starts with `http://` or `https://`, trimmed, in order.
pub fn extract_links(text: &str) -> (links: Vec<String>)
    ensures
        links@.map_values(|l: String| l@) == links_in(text_lines(text@)),
{
    let ghost s = text@;
    let n = text.unicode_len();
    let mut links: Vec<String> = Vec::new();
    let mut pos: usize = 0;
    let ghost mut done: Seq<Seq<char>> = Seq::empty();
    assert(s.skip(0) =~= s);
    while pos < n
        invariant
            n == s.len(),
            s == text@,
            pos <= n,
            text_lines(s) == done + text_lines(s.skip(pos as int)),
            links@.map_values(|l: String| l@) == links_in(done),
        decreases n - pos,
    {
        let mut j: usize = pos;
        while j < n && text.get_char(j) != '\n'
            invariant
                n == s.len(),
                s == text@,
                pos <= j <= n,
                forall|i: int| pos <= i < j ==> s[i] != '\n',
            decreases n - j,
        {
            j += 1;
        }
        let end = if j < n && j > pos && text.get_char(j - 1) == '\r' {
            j - 1
        } else {
            j
        };
        let line = text.substring_char(pos, end);
        let ghost rest = s.skip(pos as int);
        proof {
            lemma_line_break_at(rest, (j - pos) as int);
            assert(line@ =~= first_line(rest));
            if j < n {
                assert(after_first_line(rest) =~= s.skip(j + 1));
            } else {
                assert(s.skip(n as int) =~= Seq::<char>::empty());
            }
            assert(text_lines(rest) == seq![first_line(rest)] + text_lines(after_first_line(rest)));
        }
        let ghost old_links = links@;
        if is_link(line) {
            let link = trim(line);
            links.push(link);
            proof {
                assert(links@.map_values(|l: String| l@) =~= old_links.map_values(|l: String| l@).push(
                    link@,
                ));
            }
        }
        proof {
            let new_done = done.push(line@);
            assert(new_done.drop_last() =~= done);
            assert(done + (seq![line@] + text_lines(after_first_line(rest))) =~= new_done
                + text_lines(after_first_line(rest)));
            done = new_done;
        }
        pos = if j < n {
            j + 1
        } else {
            n
        };
    }
    assert(s.skip(n as int) =~= Seq::<char>::empty());
    assert(done + Seq::<Seq<char>>::empty() =~= done);
    links
}

proof fn lemma_trailing_white_stops(s: Seq<char>, i: int)
    requires
        0 <= i < s.len(),
        !is_white(s[i]),
    ensures
        trailing_white(s) <= s.len() - 1 - i,
    decreases s.len(),
{
    if s.len() > 0 && is_white(s.last()) {
        lemma_trailing_white_stops(s.drop_last(), i);
    }
}

proof fn lemma_trimmed_link(line: Seq<char>)
    requires
        is_link_line(line),
    ensures
        is_link_line(trimmed(line)),
        !is_white(trimmed(line)[0]),
        !is_white(trimmed(line).last()),
{
    let p = if http_prefix().is_prefix_of(line) {
        http_prefix()
    } else {
        https_prefix()
    };
    assert(line[0] == p[0]);
    assert(leading_white(line) == 0);
    assert(line.skip(0) =~= line);
    assert(line[p.len() - 1] == p[p.len() - 1]);
    lemma_trailing_white_stops(line, p.len() - 1);
    let t = trimmed(line);
    assert(t =~= line.take(line.len() - trailing_white(line)));
    assert(p.is_prefix_of(t)) by {
        assert forall|k: int| 0 <= k < p.len() implies t[k] == p[k] by {
            assert(line[k] == p[k]);
        }
        assert(t.take(p.len() as int) =~= p);
    }
    lemma_trailing_white_exact(line);
}

proof fn lemma_trailing_white_exact(s: Seq<char>)
    ensures
        trailing_white(s) <= s.len(),
        trailing_white(s) < s.len() ==> !is_white(s[s.len() - trailing_white(s) - 1]),
    decreases s.len(),
{
    if s.len() > 0 && is_white(s.last()) {
        lemma_trailing_white_exact(s.drop_last());
    }
}

/// Every link picked out of dropped text starts with `http://` or
/// `https://`, and neither starts nor ends with whitespace.
pub proof fn lemma_links_are_trimmed(text: Seq<char>)
    ensures
        forall|i: int|
            0 <= i < links_in(text_lines(text)).len() ==> {
                let link = #[trigger] links_in(text_lines(text))[i];
                &&& is_link_line(link)
                &&& !is_white(link[0])
                &&& !is_white(link.last())
            },
{
    lemma_links_in_trimmed(text_lines(text));
}

proof fn lemma_links_in_trimmed(lines: Seq<Seq<char>>)
    ensures
        forall|i: int|
            0 <= i < links_in(lines).len() ==> {
                let link = #[trigger] links_in(lines)[i];
                &&& is_link_line(link)
                &&& !is_white(link[0])
                &&& !is_white(link.last())
            },
    decreases lines.len(),
{
    if lines.len() > 0 {
        lemma_links_in_trimmed(lines.drop_last());
        let rest = links_in(lines.drop_last());
        if is_link_line(lines.last()) {
            lemma_trimmed_link(lines.last());
            assert forall|i: int| 0 <= i < links_in(lines).len() implies {
                let link = #[trigger] links_in(lines)[i];
                &&& is_link_line(link)
                &&& !is_white(link[0])
                &&& !is_white(link.last())
            } by {
                if i < rest.len() {
                    assert(links_in(lines)[i] == rest[i]);
                }
            }
        }
    }
}

// -------------------------------------------------------------- event files

/// Whether a file name has the extension `json`, as `Path::extension` reads
/// it: the part after the last dot, when something precedes that dot.
pub open spec fn has_json_extension(name: Seq<char>) -> bool {
    &&& name.len() >= 6
    &&& name[name.len() - 5] == '.'
    &&& name.skip(name.len() - 4) == seq!['j', 's', 'o', 'n']
}

/// Whether a file name has the extension `json`.
pub fn is_json_file_name(name: &str) -> (r: bool)
    ensures
        r == has_json_extension(name@),
{
    let n = name.unicode_len();
    if n < 6 {
        return false;
    }
    let r = name.get_char(n - 5) == '.' && name.get_char(n - 4) == 'j' && name.get_char(n - 3)
        == 's' && name.get_char(n - 2) == 'o' && name.get_char(n - 1) == 'n';
    proof {
        if r {
            assert(name@.skip(n - 4) =~= seq!['j', 's', 'o', 'n']);
        } else if name@[n - 5] == '.' {
            let tail = name@.skip(n - 4);
            if tail == seq!['j', 's', 'o', 'n'] {
                assert(tail[0] == name@[n - 4] && tail[1] == name@[n - 3] && tail[2] == name@[n - 2]
                    && tail[3] == name@[n - 1]);
            }
        }
    }
    r
}

/// The characters `events_`.
pub open spec fn event_file_prefix() -> Seq<char> {
    seq!['e', 'v', 'e', 'n', 't', 's', '_']
}

/// The characters `.json`.
pub open spec fn event_file_suffix() -> Seq<char> {
    seq!['.', 'j', 's', 'o', 'n']
}

/// The last `width` decimal digits of `n`, most significant first, padded
/// with zeros.
pub open spec fn fixed_digits(n: nat, width: nat) -> Seq<char>
    decreases width,
{
    if width == 0 {
        Seq::empty()
    } else {
        fixed_digits(n / 10, (width - 1) as nat).push(digit_char(n % 10))
    }
}

/// The lower-case hexadecimal digit character for `d` (0 to 15).
pub open spec fn hex_char(d: nat) -> char {
    if d < 10 {
        (48 + d) as char
    } else {
        (87 + d) as char
    }
}

/// The last `width` hexadecimal digits of `n`, most significant first,
/// padded with zeros.
pub open spec fn fixed_hex(n: nat, width: nat) -> Seq<char>
    decreases width,
{
    if width == 0 {
        Seq::empty()
    } else {
        fixed_hex(n / 16, (width - 1) as nat).push(hex_char(n % 16))
    }
}

/// The name of the file that holds an event of the item `id` recorded at
/// second `secs` and nanosecond `nanos`:
/// `events_<secs>_<nanos as ten digits>_<id as 32 hex digits>.json`.
pub open spec fn event_file_text(secs: int, nanos: nat, id: nat) -> Seq<char> {
    event_file_prefix() + decimal_text(secs) + seq!['_'] + fixed_digits(nanos, 10) + seq!['_']
        + fixed_hex(id, 32) + event_file_suffix()
}

fn hex_text(d: u128) -> (s: &'static str)
    requires
        d < 16,
    ensures
        s@ == seq![hex_char(d as nat)],
{
    proof {
        reveal_strlit("0");
        reveal_strlit("1");
        reveal_strlit("2");
        reveal_strlit("3");
        reveal_strlit("4");
        reveal_strlit("5");
        reveal_strlit("6");
        reveal_strlit("7");
        reveal_strlit("8");
        reveal_strlit("9");
        reveal_strlit("a");
        reveal_strlit("b");
        reveal_strlit("c");
        reveal_strlit("d");
        reveal_strlit("e");
        reveal_strlit("f");
    }
    match d {
        0 => "0",
        1 => "1",
        2 => "2",
        3 => "3",
        4 => "4",
        5 => "5",
        6 => "6",
        7 => "7",
        8 => "8",
        9 => "9",
        10 => "a",
        11 => "b",
        12 => "c",
        13 => "d",
        14 => "e",
        _ => "f",
    }
}

/// The last `width` decimal digits of `n`, padded with zeros.
pub fn fixed_width_decimal(n: u64, width: u64) -> (text: String)
    ensures
        text@ == fixed_digits(n as nat, width as nat),
{
    let mut acc = String::new();
    let mut m: u64 = n;
    let mut k: u64 = 0;
    while k < width
        invariant
            k <= width,
            fixed_digits(n as nat, width as nat) == fixed_digits(m as nat, (width - k) as nat) + acc@,
        decreases width - k,
    {
        let head = digit_text(m % 10).to_owned();
        acc = head.concat(acc.as_str());
        proof {
            assert(fixed_digits(m as nat, (width - k) as nat) == fixed_digits((m / 10) as nat, (width - k
                - 1) as nat).push(digit_char((m % 10) as nat)));
            assert(fixed_digits(n as nat, width as nat) =~= fixed_digits((m / 10) as nat, (width - k
                - 1) as nat) + acc@);
        }
        m = m / 10;
        k += 1;
    }
    assert(fixed_digits(n as nat, width as nat) =~= acc@);
    acc
}

/// The last `width` lower-case hexadecimal digits of `n`, padded with zeros.
pub fn fixed_width_hex(n: u128, width: u64) -> (text: String)
    ensures
        text@ == fixed_hex(n as nat, width as nat),
{
    let mut acc = String::new();
    let mut m: u128 = n;
    let mut k: u64 = 0;
    while k < width
        invariant
            k <= width,
            fixed_hex(n as nat, width as nat) == fixed_hex(m as nat, (width - k) as nat) + acc@,
        decreases width - k,
    {
        let head = hex_text(m % 16).to_owned();
        acc = head.concat(acc.as_str());
        proof {
            assert(fixed_hex(m as nat, (width - k) as nat) == fixed_hex((m / 16) as nat, (width - k - 1) as nat).push(
                hex_char((m % 16) as nat),
            ));
            assert(fixed_hex(n as nat, width as nat) =~= fixed_hex((m / 16) as nat, (width - k - 1) as nat) + acc@);
        }
        m = m / 16;
        k += 1;
    }
    assert(fixed_hex(n as nat, width as nat) =~= acc@);
    acc
}

/// The name of the file that holds an event of the item `id` recorded at
/// second `secs` and nanosecond `nanos`.
pub fn event_file_name(secs: i64, nanos: u32, id: u128) -> (name: String)
    ensures
        name@ == event_file_text(secs as int, nanos as nat, id as nat),
{
    proof {
        reveal_strlit("events_");
        reveal_strlit(".json");
        reveal_strlit("_");
        assert("events_"@ =~= event_file_prefix());
        assert(".json"@ =~= event_file_suffix());
    }
    let seconds = decimal(secs);
    let fraction = fixed_width_decimal(nanos as u64, 10);
    let item = fixed_width_hex(id, 32);
    let name = "events_".to_owned().concat(seconds.as_str()).concat("_").concat(fraction.as_str()).concat(
        "_",
    ).concat(item.as_str()).concat(".json");
    assert(name@ =~= event_file_text(secs as int, nanos as nat, id as nat));
    name
}

// ------------------------------------------------ distinct names for events

proof fn lemma_digits_len(n: nat)
    ensures
        digits_of(n).len() >= 1,
    decreases n,
{
    if n >= 10 {
        lemma_digits_len(n / 10);
    }
}

proof fn lemma_digits_injective(a: nat, b: nat)
    requires
        digits_of(a) == digits_of(b),
    ensures
        a == b,
    decreases a,
{
    if a < 10 && b < 10 {
        assert(digits_of(a) == seq![digit_char(a)]);
        assert(digits_of(b) == seq![digit_char(b)]);
        assert(digits_of(a)[0] == digit_char(a));
        assert(digits_of(b)[0] == digit_char(b));
        assert(digit_char(a) == digit_char(b));
        assert(digit_char(a) as u32 == 48 + a);
        assert(digit_char(b) as u32 == 48 + b);
    } else if a < 10 {
        lemma_digits_len(b / 10);
        assert(digits_of(b).len() >= 2);
    } else if b < 10 {
        lemma_digits_len(a / 10);
        assert(digits_of(a).len() >= 2);
    } else {
        assert(digits_of(a) == digits_of(a / 10).push(digit_char(a % 10)));
        assert(digits_of(b) == digits_of(b / 10).push(digit_char(b % 10)));
        assert(digits_of(a).last() == digit_char(a % 10));
        assert(digits_of(b).last() == digit_char(b % 10));
        assert(digit_char(a % 10) == digit_char(b % 10));
        assert(digit_char(a % 10) as u32 == 48 + a % 10);
        assert(digit_char(b % 10) as u32 == 48 + b % 10);
        assert(a % 10 == b % 10);
        assert(digits_of(a).drop_last() =~= digits_of(a / 10));
        assert(digits_of(b).drop_last() =~= digits_of(b / 10));
        lemma_digits_injective(a / 10, b / 10);
        assert(a == 10 * (a / 10) + a % 10);
        assert(b == 10 * (b / 10) + b % 10);
    }
}

proof fn lemma_digit_chars(n: nat)
    ensures
        forall|i: int| 0 <= i < digits_of(n).len() ==> 48 <= (#[trigger] digits_of(n)[i]) as u32 <= 57,
    decreases n,
{
    if n >= 10 {
        lemma_digit_chars(n / 10);
        assert forall|i: int| 0 <= i < digits_of(n).len() implies 48 <= (#[trigger] digits_of(n)[i]) as u32 <= 57 by {
            if i < digits_of(n).len() - 1 {
                assert(digits_of(n)[i] == digits_of(n / 10)[i]);
            }
        }
    }
}

/// Different numbers have different decimal texts.
pub proof fn lemma_decimal_injective(a: int, b: int)
    requires
        decimal_text(a) == decimal_text(b),
    ensures
        a == b,
{
    if a < 0 && b < 0 {
        assert(decimal_text(a).drop_first() =~= digits_of((-a) as nat));
        assert(decimal_text(b).drop_first() =~= digits_of((-b) as nat));
        lemma_digits_injective((-a) as nat, (-b) as nat);
    } else if a < 0 {
        lemma_digits_len(b as nat);
        lemma_digit_chars(b as nat);
        assert(decimal_text(a)[0] == '-');
        assert(decimal_text(b)[0] == digits_of(b as nat)[0]);
    } else if b < 0 {
        lemma_digits_len(a as nat);
        lemma_digit_chars(a as nat);
        assert(decimal_text(b)[0] == '-');
        assert(decimal_text(a)[0] == digits_of(a as nat)[0]);
    } else {
        lemma_digits_injective(a as nat, b as nat);
    }
}

/// `10` to the power `w`.
pub open spec fn ten_to(w: nat) -> nat
    decreases w,
{
    if w == 0 {
        1
    } else {
        10 * ten_to((w - 1) as nat)
    }
}

/// `16` to the power `w`.
pub open spec fn sixteen_to(w: nat) -> nat
    decreases w,
{
    if w == 0 {
        1
    } else {
        16 * sixteen_to((w - 1) as nat)
    }
}

proof fn lemma_fixed_digits(a: nat, b: nat, w: nat)
    requires
        a < ten_to(w),
        b < ten_to(w),
        fixed_digits(a, w) == fixed_digits(b, w),
    ensures
        a == b,
    decreases w,
{
    if w > 0 {
        assert(fixed_digits(a, w) == fixed_digits(a / 10, (w - 1) as nat).push(digit_char(a % 10)));
        assert(fixed_digits(b, w) == fixed_digits(b / 10, (w - 1) as nat).push(digit_char(b % 10)));
        assert(fixed_digits(a, w).last() == digit_char(a % 10));
        assert(fixed_digits(b, w).last() == digit_char(b % 10));
        assert(digit_char(a % 10) == digit_char(b % 10));
        assert(digit_char(a % 10) as u32 == 48 + a % 10);
        assert(digit_char(b % 10) as u32 == 48 + b % 10);
        assert(a % 10 == b % 10);
        assert(fixed_digits(a, w).drop_last() =~= fixed_digits(a / 10, (w - 1) as nat));
        assert(fixed_digits(b, w).drop_last() =~= fixed_digits(b / 10, (w - 1) as nat));
        lemma_fixed_digits(a / 10, b / 10, (w - 1) as nat);
        assert(a == 10 * (a / 10) + a % 10);
        assert(b == 10 * (b / 10) + b % 10);
    }
}

proof fn lemma_fixed_digits_len(a: nat, w: nat)
    ensures
        fixed_digits(a, w).len() == w,
    decreases w,
{
    if w > 0 {
        lemma_fixed_digits_len(a / 10, (w - 1) as nat);
    }
}

proof fn lemma_fixed_hex(a: nat, b: nat, w: nat)
    requires
        a < sixteen_to(w),
        b < sixteen_to(w),
        fixed_hex(a, w) == fixed_hex(b, w),
    ensures
        a == b,
    decreases w,
{
    if w > 0 {
        assert(fixed_hex(a, w) == fixed_hex(a / 16, (w - 1) as nat).push(hex_char(a % 16)));
        assert(fixed_hex(b, w) == fixed_hex(b / 16, (w - 1) as nat).push(hex_char(b % 16)));
        assert(fixed_hex(a, w).last() == hex_char(a % 16));
        assert(fixed_hex(b, w).last() == hex_char(b % 16));
        assert(hex_char(a % 16) == hex_char(b % 16));
        assert(hex_char(a % 16) as u32 == if a % 16 < 10 { 48 + a % 16 } else { 87 + a % 16 });
        assert(hex_char(b % 16) as u32 == if b % 16 < 10 { 48 + b % 16 } else { 87 + b % 16 });
        assert(fixed_hex(a, w).drop_last() =~= fixed_hex(a / 16, (w - 1) as nat));
        assert(fixed_hex(b, w).drop_last() =~= fixed_hex(b / 16, (w - 1) as nat));
        assert(a % 16 == b % 16);
        lemma_fixed_hex(a / 16, b / 16, (w - 1) as nat);
        assert(a == 16 * (a / 16) + a % 16);
        assert(b == 16 * (b / 16) + b % 16);
    }
}

proof fn lemma_fixed_hex_len(a: nat, w: nat)
    ensures
        fixed_hex(a, w).len() == w,
    decreases w,
{
    if w > 0 {
        lemma_fixed_hex_len(a / 16, (w - 1) as nat);
    }
}

/// Events recorded at different times, or of different items, are stored in
/// files with different names.
pub proof fn lemma_event_file_names_distinct(
    secs_a: i64,
    nanos_a: u32,
    id_a: u128,
    secs_b: i64,
    nanos_b: u32,
    id_b: u128,
)
    requires
        event_file_text(secs_a as int, nanos_a as nat, id_a as nat) == event_file_text(
            secs_b as int,
            nanos_b as nat,
            id_b as nat,
        ),
    ensures
        secs_a == secs_b,
        nanos_a == nanos_b,
        id_a == id_b,
{
    assert(ten_to(10) == 10000000000) by {
        reveal_with_fuel(ten_to, 11);
    }
    assert(sixteen_to(32) == 0x1_0000_0000_0000_0000_0000_0000_0000_0000) by {
        reveal_with_fuel(sixteen_to, 33);
    }
    lemma_fixed_digits_len(nanos_a as nat, 10);
    lemma_fixed_digits_len(nanos_b as nat, 10);
    lemma_fixed_hex_len(id_a as nat, 32);
    lemma_fixed_hex_len(id_b as nat, 32);
    let head_a = event_file_prefix() + decimal_text(secs_a as int);
    let head_b = event_file_prefix() + decimal_text(secs_b as int);
    let tail_a = seq!['_'] + fixed_digits(nanos_a as nat, 10) + seq!['_'] + fixed_hex(id_a as nat, 32)
        + event_file_suffix();
    let tail_b = seq!['_'] + fixed_digits(nanos_b as nat, 10) + seq!['_'] + fixed_hex(id_b as nat, 32)
        + event_file_suffix();
    let name_a = event_file_text(secs_a as int, nanos_a as nat, id_a as nat);
    let name_b = event_file_text(secs_b as int, nanos_b as nat, id_b as nat);
    assert(name_a =~= head_a + tail_a);
    assert(name_b =~= head_b + tail_b);
    assert(tail_a.len() == 49 && tail_b.len() == 49);
    assert(head_a.len() == head_b.len());
    assert(head_a =~= name_a.take(head_a.len() as int));
    assert(head_b =~= name_b.take(head_b.len() as int));
    assert(tail_a =~= name_a.skip(head_a.len() as int));
    assert(tail_b =~= name_b.skip(head_b.len() as int));
    assert(decimal_text(secs_a as int) =~= head_a.skip(7));
    assert(decimal_text(secs_b as int) =~= head_b.skip(7));
    lemma_decimal_injective(secs_a as int, secs_b as int);
    assert(fixed_digits(nanos_a as nat, 10) =~= tail_a.subrange(1, 11));
    assert(fixed_digits(nanos_b as nat, 10) =~= tail_b.subrange(1, 11));
    lemma_fixed_digits(nanos_a as nat, nanos_b as nat, 10);
    assert(fixed_hex(id_a as nat, 32) =~= tail_a.subrange(12, 44));
    assert(fixed_hex(id_b as nat, 32) =~= tail_b.subrange(12, 44));
    lemma_fixed_hex(id_a as nat, id_b as nat, 32);
}

} // verus!
