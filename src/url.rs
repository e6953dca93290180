//! Gopher addresses: the grammar `[gopher://]host[:port][/<type><selector>]`
//! and its canonical text form.
use vstd::prelude::*;
use crate::item::{GopherItem, item_of, code_of, lemma_code_round_trip};
use crate::text::{chars_of, string_of, push_char};

verus! {

/// The port that an address has when it names none, or names one that is not a `u16`.
pub const DEFAULT_PORT: u16 = 70;

/// The mathematical value of an address.
pub struct AddressView {
    pub host: Seq<char>,
    pub port: u16,
    pub kind: GopherItem,
    pub selector: Seq<char>,
}

/// A location on a Gopher server. Two addresses are equal when all four parts are.
#[derive(Debug, Hash)]
pub struct GopherURL {
    pub host: String,
    pub port: u16,
    pub gopher_type: GopherItem,
    pub selector: String,
}

/// The address text did not contain a host.
#[derive(Clone, Copy, Debug, PartialEq, Eq, Structural)]
pub enum ParseError {
    MissingHost,
}

impl View for GopherURL {
    type V = AddressView;

    open spec fn view(&self) -> AddressView {
        AddressView {
            host: self.host@,
            port: self.port,
            kind: self.gopher_type,
            selector: self.selector@,
        }
    }
}

pub open spec fn scheme() -> Seq<char> {
    seq!['g', 'o', 'p', 'h', 'e', 'r', ':', '/', '/']
}

/// Where the host starts: after the scheme, if `s` begins with it.
pub open spec fn host_start(s: Seq<char>) -> int {
    if s.len() >= scheme().len() && s.subrange(0, scheme().len() as int) == scheme() {
        scheme().len() as int
    } else {
        0
    }
}

pub open spec fn ends_host(c: char) -> bool {
    c == ':' || c == '/'
}

/// The first position at or after `i` that holds `:` or `/`, or the length of `s`.
pub open spec fn scan_host(s: Seq<char>, i: int) -> int
    decreases s.len() - i,
{
    if i >= s.len() || ends_host(s[i]) {
        i
    } else {
        scan_host(s, i + 1)
    }
}

/// The first position at or after `i` that holds `/`, or the length of `s`.
pub open spec fn scan_slash(s: Seq<char>, i: int) -> int
    decreases s.len() - i,
{
    if i >= s.len() || s[i] == '/' {
        i
    } else {
        scan_slash(s, i + 1)
    }
}

pub open spec fn is_digit(c: char) -> bool {
    '0' <= c && c <= '9'
}

pub open spec fn all_digits(s: Seq<char>) -> bool {
    forall|i: int| 0 <= i < s.len() ==> is_digit(#[trigger] s[i])
}

/// The number that a run of decimal digits denotes.
pub open spec fn digits_value(s: Seq<char>) -> nat
    decreases s.len(),
{
    if s.len() == 0 {
        0
    } else {
        digits_value(s.drop_last()) * 10 + ((s.last() as u32) - 48) as nat
    }
}

/// A run of digits read as a port: its value when it is not empty and fits a
/// `u16`, else the default port.
pub open spec fn digits_port(s: Seq<char>) -> u16 {
    if s.len() > 0 && all_digits(s) && digits_value(s) <= u16::MAX {
        digits_value(s) as u16
    } else {
        DEFAULT_PORT
    }
}

/// A port field without its sign: one leading `+` is allowed before the digits.
pub open spec fn unsigned_part(s: Seq<char>) -> Seq<char> {
    if s.len() > 0 && s[0] == '+' {
        s.drop_first()
    } else {
        s
    }
}

/// A port field: its value when it is an optional `+` and then a non-empty run of
/// digits that fits a `u16`, else the default port.
pub open spec fn port_value(s: Seq<char>) -> u16 {
    digits_port(unsigned_part(s))
}

/// The address that a text denotes, or `None` where no host can be found.
pub open spec fn parse_address(s: Seq<char>) -> Option<AddressView> {
    let b = host_start(s);
    let h = scan_host(s, b);
    if h == b {
        None
    } else {
        let has_port = h < s.len() && s[h] == ':';
        let t = if has_port { scan_slash(s, h + 1) } else { h };
        let port = if has_port { port_value(s.subrange(h + 1, t)) } else { DEFAULT_PORT };
        if t + 1 < s.len() {
            Some(AddressView {
                host: s.subrange(b, h),
                port,
                kind: item_of(s[t + 1]),
                selector: s.subrange(t + 2, s.len() as int),
            })
        } else {
            Some(AddressView {
                host: s.subrange(b, h),
                port,
                kind: GopherItem::Submenu,
                selector: Seq::empty(),
            })
        }
    }
}

pub open spec fn digit_char(d: nat) -> char {
    if d == 0 { '0' }
    else if d == 1 { '1' }
    else if d == 2 { '2' }
    else if d == 3 { '3' }
    else if d == 4 { '4' }
    else if d == 5 { '5' }
    else if d == 6 { '6' }
    else if d == 7 { '7' }
    else if d == 8 { '8' }
    else { '9' }
}

/// The decimal digits of `n`, without leading zeros.
pub open spec fn decimal(n: nat) -> Seq<char>
    decreases n,
{
    if n < 10 {
        seq![digit_char(n)]
    } else {
        decimal(n / 10).push(digit_char(n % 10))
    }
}

/// The canonical text of an address; the type and selector are left out
/// when the selector is empty.
pub open spec fn address_text(a: AddressView) -> Seq<char> {
    let base = scheme() + a.host + seq![':'] + decimal(a.port as nat);
    if a.selector.len() == 0 {
        base
    } else {
        base + seq!['/', code_of(a.kind)] + a.selector
    }
}

proof fn lemma_scan_host(s: Seq<char>, i: int)
    requires
        0 <= i <= s.len(),
    ensures
        i <= scan_host(s, i) <= s.len(),
        forall|j: int| i <= j < scan_host(s, i) ==> !ends_host(#[trigger] s[j]),
        scan_host(s, i) < s.len() ==> ends_host(s[scan_host(s, i)]),
    decreases s.len() - i,
{
    if i < s.len() && !ends_host(s[i]) {
        lemma_scan_host(s, i + 1);
    }
}

proof fn lemma_scan_host_at(s: Seq<char>, i: int, k: int)
    requires
        0 <= i <= k <= s.len(),
        forall|j: int| i <= j < k ==> !ends_host(#[trigger] s[j]),
        k == s.len() || ends_host(s[k]),
    ensures
        scan_host(s, i) == k,
    decreases k - i,
{
    if i < k {
        lemma_scan_host_at(s, i + 1, k);
    }
}

proof fn lemma_scan_slash_at(s: Seq<char>, i: int, k: int)
    requires
        0 <= i <= k <= s.len(),
        forall|j: int| i <= j < k ==> #[trigger] s[j] != '/',
        k == s.len() || s[k] == '/',
    ensures
        scan_slash(s, i) == k,
    decreases k - i,
{
    if i < k {
        lemma_scan_slash_at(s, i + 1, k);
    }
}

proof fn lemma_decimal(n: nat)
    ensures
        decimal(n).len() > 0,
        all_digits(decimal(n)),
        digits_value(decimal(n)) == n,
    decreases n,
{
    if n >= 10 {
        lemma_decimal(n / 10);
        assert(decimal(n).drop_last() =~= decimal(n / 10));
        assert(all_digits(decimal(n))) by {
            assert forall|i: int| 0 <= i < decimal(n).len() implies is_digit(#[trigger] decimal(n)[i]) by {
                if i < decimal(n / 10).len() {
                    assert(decimal(n)[i] == decimal(n / 10)[i]);
                }
            }
        }
        assert(n == (n / 10) * 10 + n % 10);
        assert((digit_char(n % 10) as u32) - 48 == n % 10);
        assert(decimal(n).last() == digit_char(n % 10));
        assert(digits_value(decimal(n)) == digits_value(decimal(n / 10)) * 10 + n % 10);
    } else {
        assert((digit_char(n) as u32) - 48 == n);
        assert(decimal(n).drop_last() =~= Seq::<char>::empty());
        assert(digits_value(Seq::<char>::empty()) == 0);
    }
}

/// The host of a parsed address is not empty and holds neither `:` nor `/`.
pub proof fn lemma_parsed_host(s: Seq<char>)
    requires
        parse_address(s) is Some,
    ensures
        parse_address(s)->0.host.len() > 0,
        forall|j: int| 0 <= j < parse_address(s)->0.host.len()
            ==> !ends_host(#[trigger] parse_address(s)->0.host[j]),
{
    let b = host_start(s);
    lemma_scan_host(s, b);
    let h = scan_host(s, b);
    assert forall|j: int| 0 <= j < h - b implies !ends_host(#[trigger] s.subrange(b, h)[j]) by {
        assert(s.subrange(b, h)[j] == s[b + j]);
    }
}

/// The address that the canonical text of `a` denotes: `a` itself, except that an
/// empty selector leaves no trace of the type, which reads back as a menu.
pub proof fn lemma_text_parses_back(a: AddressView)
    requires
        a.host.len() > 0,
        forall|j: int| 0 <= j < a.host.len() ==> !ends_host(#[trigger] a.host[j]),
    ensures
        parse_address(address_text(a)) == Some(
            if a.selector.len() == 0 {
                AddressView { kind: GopherItem::Submenu, ..a }
            } else {
                a
            },
        ),
{
    let t = address_text(a);
    let dec = decimal(a.port as nat);
    lemma_decimal(a.port as nat);
    let hl = a.host.len() as int;
    let dl = dec.len() as int;
    let p = 10 + hl + dl;
    assert(t.subrange(0, 9) =~= scheme());
    assert(host_start(t) == 9);
    assert forall|j: int| 9 <= j < 9 + hl implies !ends_host(#[trigger] t[j]) by {
        assert(t[j] == a.host[j - 9]);
    }
    assert(t[9 + hl] == ':');
    lemma_scan_host_at(t, 9, 9 + hl);
    assert forall|j: int| 10 + hl <= j < p implies #[trigger] t[j] != '/' by {
        assert(t[j] == dec[j - 10 - hl]);
        assert(is_digit(dec[j - 10 - hl]));
    }
    if a.selector.len() > 0 {
        assert(t[p] == '/');
    }
    lemma_scan_slash_at(t, 10 + hl, p);
    assert(t.subrange(10 + hl, p) =~= dec);
    assert(t.subrange(9, 9 + hl) =~= a.host);
    assert(unsigned_part(dec) == dec) by {
        assert(is_digit(dec[0]));
    }
    assert(port_value(dec) == a.port);
    assert(scan_host(t, 9) == 9 + hl);
    assert(scan_slash(t, 10 + hl) == p);
    if a.selector.len() > 0 {
        assert(t[p + 1] == code_of(a.kind));
        lemma_code_round_trip(a.kind);
        assert(t.subrange(p + 2, t.len() as int) =~= a.selector);
        assert(p + 1 < t.len());
        assert(parse_address(t) == Some(a));
    } else {
        assert(t.len() == p);
        assert(a.selector =~= Seq::<char>::empty());
        assert(parse_address(t) == Some(AddressView { kind: GopherItem::Submenu, ..a }));
    }
}

/// Printing an address in canonical form is idempotent: the text of a parsed
/// address, parsed and printed again, is the same text.
pub proof fn lemma_canonical_text_fixed_point(s: Seq<char>)
    requires
        parse_address(s) is Some,
    ensures
        parse_address(address_text(parse_address(s)->0)) is Some,
        address_text(parse_address(address_text(parse_address(s)->0))->0) == address_text(
            parse_address(s)->0,
        ),
{
    lemma_parsed_host(s);
    lemma_text_parses_back(parse_address(s)->0);
}

/// Parsing the canonical text of a parsed address gives the same address, for every
/// address whose type the text keeps: one with a selector, or a menu.
pub proof fn lemma_reparse_canonical(s: Seq<char>)
    requires
        parse_address(s) is Some,
        parse_address(s)->0.selector.len() > 0 || parse_address(s)->0.kind
            == GopherItem::Submenu,
    ensures
        parse_address(address_text(parse_address(s)->0)) == parse_address(s),
{
    lemma_parsed_host(s);
    lemma_text_parses_back(parse_address(s)->0);
}

proof fn lemma_digits_prefix(s: Seq<char>, k: int)
    requires
        0 <= k <= s.len(),
        all_digits(s),
    ensures
        all_digits(s.subrange(0, k)),
        digits_value(s.subrange(0, k)) <= digits_value(s),
    decreases s.len(),
{
    if k < s.len() {
        lemma_digits_prefix(s.drop_last(), k);
        assert(s.drop_last().subrange(0, k) =~= s.subrange(0, k));
    } else {
        assert(s.subrange(0, k) =~= s);
    }
}

fn scheme_len(v: &Vec<char>) -> (b: usize)
    ensures
        b == host_start(v@),
{
    let pre: Vec<char> = vec!['g', 'o', 'p', 'h', 'e', 'r', ':', '/', '/'];
    assert(pre@ =~= scheme());
    if v.len() < pre.len() {
        return 0;
    }
    let mut i: usize = 0;
    while i < pre.len()
        invariant
            i <= pre@.len() <= v@.len(),
            pre@ == scheme(),
            forall|j: int| 0 <= j < i ==> v@[j] == pre@[j],
        decreases pre.len() - i,
    {
        if v[i] != pre[i] {
            assert(v@.subrange(0, 9)[i as int] != scheme()[i as int]);
            return 0;
        }
        i = i + 1;
    }
    assert(v@.subrange(0, 9) =~= scheme());
    pre.len()
}

fn find_host_end(v: &Vec<char>, start: usize) -> (e: usize)
    requires
        start <= v@.len(),
    ensures
        e == scan_host(v@, start as int),
        start <= e <= v@.len(),
{
    let mut i = start;
    while i < v.len() && v[i] != ':' && v[i] != '/'
        invariant
            start <= i <= v@.len(),
            scan_host(v@, i as int) == scan_host(v@, start as int),
        decreases v.len() - i,
    {
        i = i + 1;
    }
    i
}

fn find_slash(v: &Vec<char>, start: usize) -> (e: usize)
    requires
        start <= v@.len(),
    ensures
        e == scan_slash(v@, start as int),
        start <= e <= v@.len(),
{
    let mut i = start;
    while i < v.len() && v[i] != '/'
        invariant
            start <= i <= v@.len(),
            scan_slash(v@, i as int) == scan_slash(v@, start as int),
        decreases v.len() - i,
    {
        i = i + 1;
    }
    i
}

/// The port that the field `v[from..to]` gives.
fn parse_port(v: &Vec<char>, from: usize, to: usize) -> (p: u16)
    requires
        from <= to <= v@.len(),
    ensures
        p == port_value(v@.subrange(from as int, to as int)),
{
    if from < to && v[from] == '+' {
        assert(v@.subrange(from as int, to as int).drop_first() =~= v@.subrange(from + 1, to as int));
        parse_digits(v, from + 1, to)
    } else {
        parse_digits(v, from, to)
    }
}

/// The port that the run of digits `v[from..to]` gives.
fn parse_digits(v: &Vec<char>, from: usize, to: usize) -> (p: u16)
    requires
        from <= to <= v@.len(),
    ensures
        p == digits_port(v@.subrange(from as int, to as int)),
{
    let ghost field = v@.subrange(from as int, to as int);
    let mut val: u32 = 0;
    let mut i = from;
    while i < to
        invariant
            from <= i <= to <= v@.len(),
            field == v@.subrange(from as int, to as int),
            all_digits(v@.subrange(from as int, i as int)),
            val as nat == digits_value(v@.subrange(from as int, i as int)),
            val <= u16::MAX,
        decreases to - i,
    {
        let c = v[i];
        if !('0' <= c && c <= '9') {
            assert(!is_digit(field[i - from]));
            return DEFAULT_PORT;
        }
        let ghost prev = v@.subrange(from as int, i as int);
        let ghost next = v@.subrange(from as int, i + 1);
        assert(next.drop_last() =~= prev);
        val = val * 10 + (c as u32 - 48);
        assert(all_digits(next)) by {
            assert forall|j: int| 0 <= j < next.len() implies is_digit(#[trigger] next[j]) by {
                if j < prev.len() {
                    assert(next[j] == prev[j]);
                }
            }
        }
        if val > 65535 {
            proof {
                if all_digits(field) {
                    lemma_digits_prefix(field, i + 1 - from);
                    assert(field.subrange(0, i + 1 - from) =~= next);
                }
            }
            return DEFAULT_PORT;
        }
        i = i + 1;
    }
    assert(v@.subrange(from as int, i as int) =~= field);
    if i == from {
        DEFAULT_PORT
    } else {
        val as u16
    }
}

fn digit_to_char(d: u16) -> (c: char)
    requires
        d < 10,
    ensures
        c == digit_char(d as nat),
{
    match d {
        0 => '0',
        1 => '1',
        2 => '2',
        3 => '3',
        4 => '4',
        5 => '5',
        6 => '6',
        7 => '7',
        8 => '8',
        _ => '9',
    }
}

/// Appends the decimal digits of `n`.
fn push_decimal(s: &mut String, n: u16)
    ensures
        final(s)@ == old(s)@ + decimal(n as nat),
    decreases n,
{
    if n >= 10 {
        push_decimal(s, n / 10);
    }
    push_char(s, digit_to_char(n % 10));
    assert(final(s)@ =~= old(s)@ + decimal(n as nat));
}

impl GopherURL {
    /// Parses an address of the form `[gopher://]host[:port][/<type><selector>]`.
    ///
    /// The host runs up to the first `:` or `/`; a port field that is not a `u16`
    /// gives the default port; without a type and selector the address is a menu
    /// with an empty selector. Fails only where the host is empty.
    pub fn parse(s: &str) -> (r: Result<GopherURL, ParseError>)
        ensures
            match r {
                Ok(u) => parse_address(s@) == Some(u@),
                Err(e) => parse_address(s@) is None && e == ParseError::MissingHost,
            },
    {
        let v = chars_of(s);
        let n = v.len();
        let b = scheme_len(&v);
        let h = find_host_end(&v, b);
        if h == b {
            return Err(ParseError::MissingHost);
        }
        let has_port = h < n && v[h] == ':';
        let t = if has_port { find_slash(&v, h + 1) } else { h };
        let port = if has_port { parse_port(&v, h + 1, t) } else { DEFAULT_PORT };
        let host = string_of(&v, b, h);
        if n - t > 1 {
            Ok(GopherURL {
                host,
                port,
                gopher_type: GopherItem::from_char(v[t + 1]),
                selector: string_of(&v, t + 2, n),
            })
        } else {
            Ok(GopherURL { host, port, gopher_type: GopherItem::Submenu, selector: String::new() })
        }
    }

    /// An address from the fields of a menu line; the port field is read as
    /// `parse` reads one.
    pub fn new(host: &str, port: &str, item_type: &GopherItem, selector: &str) -> (r: GopherURL)
        ensures
            r@ == (AddressView {
                host: host@,
                port: port_value(port@),
                kind: *item_type,
                selector: selector@,
            }),
    {
        let pv = chars_of(port);
        assert(pv@.subrange(0, pv@.len() as int) =~= port@);
        GopherURL {
            host: String::from_str(host),
            port: parse_port(&pv, 0, pv.len()),
            gopher_type: *item_type,
            selector: String::from_str(selector),
        }
    }

    /// The canonical text `gopher://host:port/<type><selector>`, or
    /// `gopher://host:port` when the selector is empty.
    pub fn to_string(&self) -> (r: String)
        ensures
            r@ == address_text(self@),
    {
        let mut r = String::from_str("gopher://");
        proof {
            reveal_strlit("gopher://");
        }
        assert(r@ =~= scheme());
        r.append(self.host.as_str());
        push_char(&mut r, ':');
        push_decimal(&mut r, self.port);
        if !self.selector.as_str().is_empty() {
            push_char(&mut r, '/');
            push_char(&mut r, self.gopher_type.to_char());
            r.append(self.selector.as_str());
        }
        assert(r@ =~= address_text(self@));
        r
    }
}

impl Clone for GopherURL {
    fn clone(&self) -> (r: GopherURL)
        ensures
            r@ == self@,
    {
        GopherURL {
            host: self.host.clone(),
            port: self.port,
            gopher_type: self.gopher_type,
            selector: self.selector.clone(),
        }
    }
}

impl PartialEq for GopherURL {
    fn eq(&self, o: &GopherURL) -> (r: bool) {
        self.port == o.port && self.gopher_type == o.gopher_type && self.host == o.host
            && self.selector == o.selector
    }
}

impl vstd::std_specs::cmp::PartialEqSpecImpl for GopherURL {
    open spec fn obeys_eq_spec() -> bool {
        true
    }

    open spec fn eq_spec(&self, o: &GopherURL) -> bool {
        self@ == o@
    }
}

impl Eq for GopherURL {

}

} // verus!
