//! Connexion information of a remote machine, and the `USER@IP:PORT` grammar.

use vstd::prelude::*;
use vstd::string::*;
use crate::text::{
    all_decimal_digits, all_digits, chars_of, decimal_digit, decimal_value, digits_value,
    i32_to_text, int_text, debug_quoted, quoted, string_of,
};

verus! {

/// Where and as whom to connect to a remote machine.
#[derive(Clone, Debug)]
pub struct ConnexionInfo {
    user: String,
    ip: String,
    port: i32,
}

impl View for ConnexionInfo {
    /// The user, the address and the port.
    type V = (Seq<char>, Seq<char>, i32);

    closed spec fn view(&self) -> (Seq<char>, Seq<char>, i32) {
        (self.user@, self.ip@, self.port)
    }
}

/// The parts have the shape of a connexion text: a non-empty user without `@`,
/// a non-empty address without `:`, and a non-empty port.
pub open spec fn shaped(user: Seq<char>, ip: Seq<char>, port: Seq<char>) -> bool {
    &&& user.len() > 0 && !user.contains('@')
    &&& ip.len() > 0 && !ip.contains(':')
    &&& port.len() > 0
}

/// `s` has the shape `USER@IP:PORT`, whatever the port holds.
pub open spec fn has_shape(s: Seq<char>) -> bool {
    exists|user: Seq<char>, ip: Seq<char>, port: Seq<char>|
        shaped(user, ip, port) && s == formatted_text(user, ip, port)
}

/// `s` has the shape `USER@IP:PORT` with a port of Unicode decimal digits that
/// are not all ASCII: the `USER@IP:PORT` pattern with a Unicode `\d` admits it,
/// but no `i32` can be read from the port.
pub open spec fn unicode_digit_port(s: Seq<char>) -> bool {
    exists|user: Seq<char>, ip: Seq<char>, port: Seq<char>|
        shaped(user, ip, port) && all_decimal_digits(port) && !all_digits(port) && s == formatted_text(user, ip, port)
}

/// The parts of a connexion text are well formed: a non-empty user without `@`,
/// a non-empty address without `:`, and a non-empty run of ASCII digits.
pub open spec fn well_formed_parts(user: Seq<char>, ip: Seq<char>, port: Seq<char>) -> bool {
    &&& user.len() > 0 && !user.contains('@')
    &&& ip.len() > 0 && !ip.contains(':')
    &&& port.len() > 0 && all_digits(port)
}

/// The connexion text `USER@IP:PORT` made of the three parts.
pub open spec fn formatted_text(user: Seq<char>, ip: Seq<char>, port: Seq<char>) -> Seq<char> {
    user + seq!['@'] + ip + seq![':'] + port
}

/// `s` is a connexion text `USER@IP:PORT` with well-formed parts.
pub open spec fn is_formatted(s: Seq<char>) -> bool {
    exists|user: Seq<char>, ip: Seq<char>, port: Seq<char>|
        well_formed_parts(user, ip, port) && s == formatted_text(user, ip, port)
}

/// The parts of a connexion text (they are unique: see `lemma_formatted_parts_unique`).
pub open spec fn formatted_parts(s: Seq<char>) -> (Seq<char>, Seq<char>, Seq<char>)
    recommends
        is_formatted(s),
{
    choose|user: Seq<char>, ip: Seq<char>, port: Seq<char>|
        well_formed_parts(user, ip, port) && s == formatted_text(user, ip, port)
}

/// An `i32` can be read from the port, where the text has the connexion shape:
/// the port of a connexion text fits in an `i32`, and the text has no port of
/// Unicode decimal digits that are not all ASCII.
pub open spec fn port_fits(s: Seq<char>) -> bool {
    &&& is_formatted(s) ==> decimal_value(formatted_parts(s).2) <= i32::MAX
    &&& !unicode_digit_port(s)
}

/// The connexion that a text describes: user, address and port.
pub open spec fn connexion_of(s: Seq<char>) -> Option<(Seq<char>, Seq<char>, i32)> {
    if is_formatted(s) {
        let (user, ip, port) = formatted_parts(s);
        Some((user, ip, decimal_value(port) as i32))
    } else {
        None
    }
}

/// The connexion written `USER@IP:PORT`, the port in decimal.
pub open spec fn connexion_text(c: (Seq<char>, Seq<char>, i32)) -> Seq<char> {
    c.0 + seq!['@'] + c.1 + seq![':'] + int_text(c.2 as int)
}

/// The text of the SSH destination `ssh://USER@IP:PORT`.
pub open spec fn ssh_text(c: (Seq<char>, Seq<char>, i32)) -> Seq<char> {
    seq!['s', 's', 'h', ':', '/', '/'] + c.0 + seq!['@'] + c.1 + seq![':'] + int_text(c.2 as int)
}

/// The `Debug` text of a connexion: `ConnexionInfo { user: "..", ip: "..", port: N }`.
pub open spec fn describe_text(c: (Seq<char>, Seq<char>, i32)) -> Seq<char> {
    seq!['C', 'o', 'n', 'n', 'e', 'x', 'i', 'o', 'n', 'I', 'n', 'f', 'o', ' ', '{', ' ', 'u', 's', 'e', 'r', ':', ' ']
        + debug_quoted(c.0) + seq![',', ' ', 'i', 'p', ':', ' '] + debug_quoted(c.1) + seq![
        ',',
        ' ',
        'p',
        'o',
        'r',
        't',
        ':',
        ' ',
    ] + int_text(c.2 as int) + seq![' ', '}']
}

/// Where the separators of a connexion text stand.
proof fn lemma_formatted_positions(s: Seq<char>, user: Seq<char>, ip: Seq<char>, port: Seq<char>)
    requires
        shaped(user, ip, port),
        s == formatted_text(user, ip, port),
    ensures
        s.len() == user.len() as int + ip.len() + port.len() + 2,
        s[user.len() as int] == '@',
        forall|j: int| 0 <= j < user.len() ==> s[j] != '@',
        s[user.len() as int + 1 + ip.len()] == ':',
        forall|j: int| user.len() < j < user.len() as int + 1 + ip.len() ==> s[j] != ':',
        user == s.subrange(0, user.len() as int),
        ip == s.subrange(user.len() as int + 1, user.len() as int + 1 + ip.len()),
        port == s.subrange(user.len() as int + ip.len() + 2, s.len() as int),
{
    assert forall|j: int| 0 <= j < user.len() implies s[j] != '@' by {
        assert(s[j] == user[j]);
    }
    assert forall|j: int| user.len() < j < user.len() as int + 1 + ip.len() implies s[j] != ':' by {
        assert(s[j] == ip[j - user.len() - 1]);
    }
    assert(user =~= s.subrange(0, user.len() as int));
    assert(ip =~= s.subrange(user.len() as int + 1, user.len() as int + 1 + ip.len()));
    assert(port =~= s.subrange(user.len() as int + ip.len() + 2, s.len() as int));
}

/// A text of the connexion shape has one decomposition into parts only.
proof fn lemma_shape_unique(
    s: Seq<char>,
    user: Seq<char>,
    ip: Seq<char>,
    port: Seq<char>,
    u2: Seq<char>,
    i2: Seq<char>,
    p2: Seq<char>,
)
    requires
        shaped(user, ip, port),
        s == formatted_text(user, ip, port),
        shaped(u2, i2, p2),
        s == formatted_text(u2, i2, p2),
    ensures
        (u2, i2, p2) == (user, ip, port),
{
    lemma_formatted_positions(s, user, ip, port);
    lemma_formatted_positions(s, u2, i2, p2);
    if u2.len() < user.len() {
        assert(s[u2.len() as int] != '@');
    }
    if user.len() < u2.len() {
        assert(s[user.len() as int] != '@');
    }
    if i2.len() < ip.len() {
        assert(s[user.len() as int + 1 + i2.len()] != ':');
    }
    if ip.len() < i2.len() {
        assert(s[user.len() as int + 1 + ip.len()] != ':');
    }
}

/// A connexion text has the connexion shape.
proof fn lemma_formatted_has_shape(s: Seq<char>)
    requires
        is_formatted(s),
    ensures
        has_shape(s),
{
    let (u, i, p) = formatted_parts(s);
    assert(shaped(u, i, p) && s == formatted_text(u, i, p));
}

/// A connexion text has one decomposition into parts only.
pub proof fn lemma_formatted_parts_unique(
    s: Seq<char>,
    user: Seq<char>,
    ip: Seq<char>,
    port: Seq<char>,
)
    requires
        well_formed_parts(user, ip, port),
        s == formatted_text(user, ip, port),
    ensures
        is_formatted(s),
        formatted_parts(s) == (user, ip, port),
{
    let (u2, i2, p2) = formatted_parts(s);
    lemma_formatted_positions(s, user, ip, port);
    lemma_formatted_positions(s, u2, i2, p2);
    if u2.len() < user.len() {
        assert(s[u2.len() as int] != '@');
    }
    if user.len() < u2.len() {
        assert(s[user.len() as int] != '@');
    }
    if i2.len() < ip.len() {
        assert(s[user.len() as int + 1 + i2.len()] != ':');
    }
    if ip.len() < i2.len() {
        assert(s[user.len() as int + 1 + ip.len()] != ':');
    }
}

/// A connexion text whose separators stand at `a` and `b` has its parts there.
proof fn lemma_parts_at(s: Seq<char>, a: int, b: int)
    requires
        0 < a && a + 1 < b && b + 1 < s.len(),
        s == formatted_text(s.subrange(0, a), s.subrange(a + 1, b), s.subrange(b + 1, s.len() as int)),
        !s.subrange(0, a).contains('@'),
        !s.subrange(a + 1, b).contains(':'),
        is_formatted(s),
    ensures
        formatted_parts(s) == (s.subrange(0, a), s.subrange(a + 1, b), s.subrange(b + 1, s.len() as int)),
{
    let (u, i, p) = formatted_parts(s);
    lemma_formatted_positions(s, u, i, p);
    assert(s[a] == '@');
    assert(s[b] == ':');
    if u.len() < a {
        assert(s.subrange(0, a)[u.len() as int] == '@');
    }
    if a < u.len() {
        assert(s[a] != '@');
    }
    let c: int = a + 1 + i.len();
    if c < b {
        assert(s.subrange(a + 1, b)[c - a - 1] == ':');
    }
    if b < c {
        assert(s[b] != ':');
    }
}

/// A text of the connexion shape whose separators stand at `a` and `b` has its
/// parts there.
proof fn lemma_shape_at(s: Seq<char>, a: int, b: int, u: Seq<char>, i: Seq<char>, p: Seq<char>)
    requires
        0 < a && a + 1 < b && b + 1 < s.len(),
        s == formatted_text(s.subrange(0, a), s.subrange(a + 1, b), s.subrange(b + 1, s.len() as int)),
        !s.subrange(0, a).contains('@'),
        !s.subrange(a + 1, b).contains(':'),
        shaped(u, i, p),
        s == formatted_text(u, i, p),
    ensures
        u == s.subrange(0, a),
        i == s.subrange(a + 1, b),
        p == s.subrange(b + 1, s.len() as int),
{
    lemma_formatted_positions(s, u, i, p);
    assert(s[a] == '@');
    assert(s[b] == ':');
    if u.len() < a {
        assert(s.subrange(0, a)[u.len() as int] == '@');
    }
    if a < u.len() {
        assert(s[a] != '@');
    }
    let c: int = a + 1 + i.len();
    if c < b {
        assert(s.subrange(a + 1, b)[c - a - 1] == ':');
    }
    if b < c {
        assert(s[b] != ':');
    }
}

/// A connexion text is read by its separators: with `k` the first `@` and `m` the
/// first `:` after it, the text is a connexion text exactly when the user
/// `s[..k]`, the address `s[k+1..m]` and the port `s[m+1..]` are non-empty and
/// the port is all ASCII digits; its parts are then those three.
pub proof fn lemma_connexion_at_first_separators(s: Seq<char>, k: int, m: int)
    requires
        0 <= k < m < s.len(),
        s[k] == '@',
        forall|j: int| 0 <= j < k ==> s[j] != '@',
        s[m] == ':',
        forall|j: int| k < j < m ==> s[j] != ':',
    ensures
        is_formatted(s) <==> (k > 0 && m > k + 1 && m + 1 < s.len() && all_digits(s.subrange(m + 1, s.len() as int))),
        is_formatted(s) ==> formatted_parts(s) == (
            s.subrange(0, k),
            s.subrange(k + 1, m),
            s.subrange(m + 1, s.len() as int),
        ),
{
    let u = s.subrange(0, k);
    let i = s.subrange(k + 1, m);
    let p = s.subrange(m + 1, s.len() as int);
    if is_formatted(s) {
        let (u2, i2, p2) = formatted_parts(s);
        lemma_formatted_positions(s, u2, i2, p2);
        if u2.len() < k {
            assert(s[u2.len() as int] == '@');
        }
        if u2.len() > k {
            assert(s[k] != '@');
        }
        let c: int = k + 1 + i2.len();
        if c < m {
            assert(s[c] == ':');
        }
        if c > m {
            assert(s[m] != ':');
        }
        assert(u2 =~= u);
        assert(i2 =~= i);
        assert(p2 =~= p);
    }
    if k > 0 && m > k + 1 && m + 1 < s.len() && all_digits(p) {
        assert(!u.contains('@')) by {
            if u.contains('@') {
                let j = choose|j: int| 0 <= j < u.len() && u[j] == '@';
                assert(s[j] == '@');
            }
        }
        assert(!i.contains(':')) by {
            if i.contains(':') {
                let j = choose|j: int| 0 <= j < i.len() && i[j] == ':';
                assert(s[k + 1 + j] == ':');
            }
        }
        assert(s =~= formatted_text(u, i, p));
        lemma_formatted_parts_unique(s, u, i, p);
    }
}

/// A text without `@`, or without `:` after its first `@`, is no connexion text.
pub proof fn lemma_no_separators(s: Seq<char>, k: int)
    requires
        (forall|j: int| 0 <= j < s.len() ==> s[j] != '@') || (0 <= k < s.len() && s[k] == '@'
            && (forall|j: int| 0 <= j < k ==> s[j] != '@') && (forall|j: int| k < j < s.len() ==> s[j] != ':')),
    ensures
        !is_formatted(s),
{
    if is_formatted(s) {
        let (u, i, p) = formatted_parts(s);
        lemma_formatted_positions(s, u, i, p);
        if forall|j: int| 0 <= j < s.len() ==> s[j] != '@' {
            assert(s[u.len() as int] == '@');
        } else {
            if u.len() < k {
                assert(s[u.len() as int] == '@');
            }
            if u.len() > k {
                assert(s[k] != '@');
            }
            assert(s[u.len() as int + 1 + i.len()] == ':');
        }
    }
}

/// A connexion written as `USER@IP:PORT`, with a well-formed user and address
/// and a port that is not negative, reads back as that connexion; `ssh_format`
/// writes exactly that text after `ssh://`.
pub proof fn lemma_formatted_round_trip(user: Seq<char>, ip: Seq<char>, port: i32)
    requires
        user.len() > 0 && !user.contains('@'),
        ip.len() > 0 && !ip.contains(':'),
        port >= 0,
    ensures
        port_fits(formatted_text(user, ip, int_text(port as int))),
        connexion_of(formatted_text(user, ip, int_text(port as int))) == Some((user, ip, port)),
        ssh_text((user, ip, port)) == seq!['s', 's', 'h', ':', '/', '/'] + formatted_text(user, ip, int_text(port as int)),
{
    crate::text::lemma_nat_text_reads_back(port as nat);
    let digits = int_text(port as int);
    lemma_formatted_parts_unique(formatted_text(user, ip, digits), user, ip, digits);
    if unicode_digit_port(formatted_text(user, ip, digits)) {
        let (u2, i2, p2) = choose|u2: Seq<char>, i2: Seq<char>, p2: Seq<char>|
            shaped(u2, i2, p2) && all_decimal_digits(p2) && !all_digits(p2)
                && formatted_text(user, ip, digits) == formatted_text(u2, i2, p2);
        lemma_shape_unique(formatted_text(user, ip, digits), user, ip, digits, u2, i2, p2);
    }
    assert(ssh_text((user, ip, port)) =~= seq!['s', 's', 'h', ':', '/', '/'] + formatted_text(user, ip, digits));
}

/// The index of the first `c` in `cs[from..]`, or the length when there is none.
fn find_char(cs: &Vec<char>, c: char, from: usize) -> (r: usize)
    requires
        from <= cs@.len(),
    ensures
        from <= r <= cs@.len(),
        forall|j: int| from <= j < r ==> cs@[j] != c,
        r < cs@.len() ==> cs@[r as int] == c,
{
    let mut i = from;
    while i < cs.len()
        invariant
            from <= i <= cs@.len(),
            forall|j: int| from <= j < i ==> cs@[j] != c,
        decreases cs@.len() - i,
    {
        if cs[i] == c {
            return i;
        }
        i = i + 1;
    }
    i
}

/// Where the `@` and the `:` of a connexion text stand, when the text has
/// the shape `USER@IP:REST` with a non-empty user, address and rest.
fn locate(cs: &Vec<char>) -> (r: Option<(usize, usize)>)
    ensures
        match r {
            Some((a, b)) => {
                &&& 0 < a && a + 1 < b && b + 1 < cs@.len()
                &&& cs@ == formatted_text(
                    cs@.subrange(0, a as int),
                    cs@.subrange(a + 1, b as int),
                    cs@.subrange(b + 1, cs@.len() as int),
                )
                &&& !cs@.subrange(0, a as int).contains('@')
                &&& !cs@.subrange(a + 1, b as int).contains(':')
            },
            None => !is_formatted(cs@) && !has_shape(cs@),
        },
{
    let n = cs.len();
    let a = find_char(cs, '@', 0);
    if a == n || a == 0 {
        proof {
            if is_formatted(cs@) {
                lemma_formatted_has_shape(cs@);
            }
            if has_shape(cs@) {
                let (u, i, p) = choose|u: Seq<char>, i: Seq<char>, p: Seq<char>|
                    shaped(u, i, p) && cs@ == formatted_text(u, i, p);
                lemma_formatted_positions(cs@, u, i, p);
            }
        }
        return None;
    }
    let b = find_char(cs, ':', a + 1);
    if b == n || b == a + 1 || b + 1 == n {
        proof {
            if is_formatted(cs@) {
                lemma_formatted_has_shape(cs@);
            }
            if has_shape(cs@) {
                let (u, i, p) = choose|u: Seq<char>, i: Seq<char>, p: Seq<char>|
                    shaped(u, i, p) && cs@ == formatted_text(u, i, p);
                lemma_formatted_positions(cs@, u, i, p);
                if u.len() < a {
                    assert(cs@[u.len() as int] != '@');
                }
                if a < u.len() {
                    assert(cs@[a as int] != '@');
                }
                let c: int = u.len() as int + 1 + i.len();
                if c < b {
                    assert(cs@[c] != ':');
                }
                if b < c {
                    assert(cs@[b as int] != ':');
                }
            }
        }
        return None;
    }
    let ghost u = cs@.subrange(0, a as int);
    let ghost i = cs@.subrange(a + 1, b as int);
    assert(cs@ =~= formatted_text(u, i, cs@.subrange(b + 1, n as int)));
    assert(!u.contains('@')) by {
        if u.contains('@') {
            let j = choose|j: int| 0 <= j < u.len() && u[j] == '@';
            assert(cs@[j] == '@');
        }
    }
    assert(!i.contains(':')) by {
        if i.contains(':') {
            let j = choose|j: int| 0 <= j < i.len() && i[j] == ':';
            assert(cs@[a + 1 + j] == ':');
        }
    }
    Some((a, b))
}

impl ConnexionInfo {
    /// Connexion information made of a user, an address and a port.
    pub fn new(user: String, ip: String, port: i32) -> (r: ConnexionInfo)
        ensures
            r@ == (user@, ip@, port),
    {
        ConnexionInfo { user, ip, port }
    }

    /// Placeholder connexion information: empty user and address, port -1.
    pub fn _empty() -> (r: ConnexionInfo)
        ensures
            r@ == (Seq::<char>::empty(), Seq::<char>::empty(), -1i32),
    {
        ConnexionInfo { user: String::new(), ip: String::new(), port: -1 }
    }

    /// The SSH destination `ssh://USER@IP:PORT` of this machine.
    pub fn ssh_format(&self) -> (r: String)
        ensures
            r@ == ssh_text(self@),
    {
        let mut r = String::from_str("ssh://");
        proof {
            reveal_strlit("ssh://");
        }
        r.append(self.user.as_str());
        crate::text::push_char(&mut r, '@');
        r.append(self.ip.as_str());
        crate::text::push_char(&mut r, ':');
        let port = i32_to_text(self.port);
        r.append(port.as_str());
        assert(r@ =~= ssh_text(self@));
        r
    }

    /// This connexion written `USER@IP:PORT`.
    pub fn formatted(&self) -> (r: String)
        ensures
            r@ == connexion_text(self@),
    {
        let mut r = self.user.clone();
        crate::text::push_char(&mut r, '@');
        r.append(self.ip.as_str());
        crate::text::push_char(&mut r, ':');
        let port = i32_to_text(self.port);
        r.append(port.as_str());
        assert(r@ =~= connexion_text(self@));
        r
    }

    /// The `Debug` text of this connexion information.
    pub fn describe(&self) -> (r: String)
        ensures
            r@ == describe_text(self@),
    {
        let mut r = String::from_str("ConnexionInfo { user: ");
        proof {
            reveal_strlit("ConnexionInfo { user: ");
            reveal_strlit(", ip: ");
            reveal_strlit(", port: ");
            reveal_strlit(" }");
        }
        let user = quoted(self.user.as_str());
        r.append(user.as_str());
        r.append(", ip: ");
        let ip = quoted(self.ip.as_str());
        r.append(ip.as_str());
        r.append(", port: ");
        let port = i32_to_text(self.port);
        r.append(port.as_str());
        r.append(" }");
        assert(r@ =~= describe_text(self@));
        r
    }

    /// Reads connexion information from a `USER@IP:PORT` text: a non-empty user
    /// without `@`, a non-empty address without `:`, and a decimal port.
    /// An `i32` must be readable from the port: a port that does not fit, or that
    /// has the connexion shape with Unicode digits that are not all ASCII, is
    /// refused up front (see `port_unreadable`).
    pub fn from_formatted(connexion: String) -> (r: Result<Self, &'static str>)
        requires
            port_fits(connexion@),
        ensures
            match r {
                Ok(info) => connexion_of(connexion@) == Some(info@),
                Err(e) => connexion_of(connexion@) is None && e@ == "invalid connexion format"@,
            },
    {
        let cs = chars_of(connexion.as_str());
        let n = cs.len();
        match locate(&cs) {
            None => Err("invalid connexion format"),
            Some((a, b)) => {
                let ghost u = cs@.subrange(0, a as int);
                let ghost i = cs@.subrange(a + 1, b as int);
                let ghost p = cs@.subrange(b + 1, n as int);
                match digits_value(&cs, b + 1, n, 2147483647u64) {
                    Some(v) => {
                        proof {
                            lemma_formatted_parts_unique(cs@, u, i, p);
                        }
                        assert(connexion@ == cs@);
                        let user = string_of(&cs, 0, a);
                        let ip = string_of(&cs, a + 1, b);
                        Ok(ConnexionInfo::new(user, ip, v as i32))
                    },
                    None => {
                        proof {
                            if is_formatted(cs@) {
                                lemma_parts_at(cs@, a as int, b as int);
                            }
                        }
                        Err("invalid connexion format")
                    },
                }
            },
        }
    }

    /// Whether no `i32` can be read from the port of the text: it is a connexion
    /// text whose port does not fit in an `i32`, or it has the connexion shape with
    /// a port of Unicode decimal digits that are not all ASCII (`from_formatted`
    /// refuses such texts up front).
    pub fn port_unreadable(connexion: &str) -> (b: bool)
        ensures
            b == !port_fits(connexion@),
    {
        let overflows = Self::ascii_port_overflows(connexion);
        let unicode = unicode_port(connexion);
        overflows || unicode
    }

    /// Whether the text is a connexion text whose port does not fit in an `i32`.
    fn ascii_port_overflows(connexion: &str) -> (b: bool)
        ensures
            b == !(is_formatted(connexion@) ==> decimal_value(formatted_parts(connexion@).2) <= i32::MAX),
    {
        let cs = chars_of(connexion);
        let n = cs.len();
        match locate(&cs) {
            None => false,
            Some((a, b)) => {
                let ghost u = cs@.subrange(0, a as int);
                let ghost i = cs@.subrange(a + 1, b as int);
                let ghost p = cs@.subrange(b + 1, n as int);
                match digits_value(&cs, b + 1, n, 2147483647u64) {
                    Some(v) => {
                        proof {
                            lemma_formatted_parts_unique(cs@, u, i, p);
                        }
                        false
                    },
                    None => {
                        let digits = digits_value(&cs, b + 1, n, u64::MAX);
                        proof {
                            if all_digits(p) {
                                lemma_formatted_parts_unique(cs@, u, i, p);
                            }
                            if is_formatted(cs@) {
                                lemma_parts_at(cs@, a as int, b as int);
                            }
                        }
                        match digits {
                            Some(_) => true,
                            None => {
                                let all = all_digits_between(&cs, b + 1, n);
                                if all {
                                    proof {
                                        lemma_formatted_parts_unique(cs@, u, i, p);
                                    }
                                }
                                all
                            },
                        }
                    },
                }
            },
        }
    }
}

/// Whether the text has the connexion shape with a port of Unicode decimal digits
/// that are not all ASCII.
fn unicode_port(connexion: &str) -> (b: bool)
    ensures
        b == unicode_digit_port(connexion@),
{
    let cs = chars_of(connexion);
    let n = cs.len();
    match locate(&cs) {
        None => false,
        Some((a, b)) => {
            let ghost u = cs@.subrange(0, a as int);
            let ghost i = cs@.subrange(a + 1, b as int);
            let ghost p = cs@.subrange(b + 1, n as int);
            let decimal = all_decimal_between(&cs, b + 1, n);
            let ascii = all_digits_between(&cs, b + 1, n);
            proof {
                if unicode_digit_port(cs@) {
                    let (u2, i2, p2) = choose|u2: Seq<char>, i2: Seq<char>, p2: Seq<char>|
                        shaped(u2, i2, p2) && all_decimal_digits(p2) && !all_digits(p2)
                            && cs@ == formatted_text(u2, i2, p2);
                    lemma_shape_at(cs@, a as int, b as int, u2, i2, p2);
                }
                if decimal && !ascii {
                    assert(shaped(u, i, p) && all_decimal_digits(p) && !all_digits(p) && cs@ == formatted_text(u, i, p));
                }
            }
            decimal && !ascii
        },
    }
}

/// Whether `cs[from..to]` is all Unicode decimal digits.
fn all_decimal_between(cs: &Vec<char>, from: usize, to: usize) -> (b: bool)
    requires
        from <= to <= cs@.len(),
    ensures
        b == all_decimal_digits(cs@.subrange(from as int, to as int)),
{
    let mut i = from;
    while i < to
        invariant
            from <= i <= to <= cs@.len(),
            forall|j: int| from <= j < i ==> crate::text::is_decimal_digit(#[trigger] cs@[j]),
        decreases to - i,
    {
        if !decimal_digit(cs[i]) {
            assert(cs@.subrange(from as int, to as int)[i - from] == cs@[i as int]);
            return false;
        }
        i = i + 1;
    }
    assert forall|j: int| 0 <= j < to - from implies crate::text::is_decimal_digit(
        #[trigger] cs@.subrange(from as int, to as int)[j],
    ) by {
        assert(cs@.subrange(from as int, to as int)[j] == cs@[from + j]);
    }
    true
}

/// Whether `cs[from..to]` is all ASCII digits.
fn all_digits_between(cs: &Vec<char>, from: usize, to: usize) -> (b: bool)
    requires
        from <= to <= cs@.len(),
    ensures
        b == all_digits(cs@.subrange(from as int, to as int)),
{
    let mut i = from;
    while i < to
        invariant
            from <= i <= to <= cs@.len(),
            forall|j: int| from <= j < i ==> crate::text::is_digit(#[trigger] cs@[j]),
        decreases to - i,
    {
        let u = cs[i] as u32;
        if u < 48 || u > 57 {
            assert(cs@.subrange(from as int, to as int)[i - from] == cs@[i as int]);
            return false;
        }
        i = i + 1;
    }
    assert forall|j: int| 0 <= j < to - from implies crate::text::is_digit(
        #[trigger] cs@.subrange(from as int, to as int)[j],
    ) by {
        assert(cs@.subrange(from as int, to as int)[j] == cs@[from + j]);
    }
    true
}

} // verus!
