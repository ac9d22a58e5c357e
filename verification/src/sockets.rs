//! Socket naming: default names for new sockets, the uniqueness rule for
//! edited names, and the socket list filter.
use vstd::prelude::*;

verus! {

/// The part of an actor that a socket or a mesh piece belongs to.
#[derive(Clone, Copy, Debug, PartialEq, Eq, Structural, Hash)]
pub enum ActorPart {
    Head,
    Body,
    Engine,
}

/// What the editor knows of a socket when naming it.
pub struct SocketInfo {
    pub part: ActorPart,
    pub name: String,
}

// ---------------------------------------------------------------------------
// Decimal numbers
// ---------------------------------------------------------------------------

/// The character of a decimal digit.
pub open spec fn digit_char(d: nat) -> char {
    ('0' as nat + d) as char
}

/// A number written in decimal, without leading zeros.
pub open spec fn decimal(n: nat) -> Seq<char>
    decreases n,
{
    if n < 10 {
        seq![digit_char(n)]
    } else {
        decimal(n / 10).push(digit_char(n % 10))
    }
}

/// `c` is one of `'0'` to `'9'`.
pub open spec fn is_ascii_digit(c: char) -> bool {
    '0' <= c && c <= '9'
}

/// Value of a string of decimal digits.
pub open spec fn digits_value(s: Seq<char>) -> nat
    decreases s.len(),
{
    if s.len() == 0 {
        0
    } else {
        digits_value(s.drop_last()) * 10 + (s.last() as nat - '0' as nat) as nat
    }
}

/// The digits part of a number: `s` without a leading `+`.
pub open spec fn unsigned_body(s: Seq<char>) -> Seq<char> {
    if s.len() > 0 && s[0] == '+' {
        s.drop_first()
    } else {
        s
    }
}

/// What parsing `s` as a `u32` gives: an optional `+` followed by at least
/// one ASCII digit, with a value that fits in 32 bits.
pub open spec fn parse_u32(s: Seq<char>) -> Option<u32> {
    let body = unsigned_body(s);
    if body.len() > 0 && (forall|i: int| 0 <= i < body.len() ==> is_ascii_digit(#[trigger] body[i]))
        && digits_value(body) <= u32::MAX {
        Some(digits_value(body) as u32)
    } else {
        None
    }
}

proof fn lemma_decimal_digits(n: nat)
    ensures
        decimal(n).len() > 0,
        forall|i: int| 0 <= i < decimal(n).len() ==> is_ascii_digit(#[trigger] decimal(n)[i]),
        digits_value(decimal(n)) == n,
    decreases n,
{
    if n < 10 {
        assert(decimal(n).drop_last() =~= Seq::<char>::empty());
        assert(digit_char(n) as nat == '0' as nat + n);
        assert(decimal(n).last() == digit_char(n));
        assert(digits_value(decimal(n).drop_last()) == 0);
    } else {
        lemma_decimal_digits(n / 10);
        let s = decimal(n / 10);
        assert(decimal(n).drop_last() =~= s);
        assert(digit_char(n % 10) as nat == '0' as nat + n % 10);
        assert forall|i: int| 0 <= i < decimal(n).len() implies is_ascii_digit(#[trigger] decimal(n)[i]) by {
            if i < s.len() {
                assert(decimal(n)[i] == s[i]);
            }
        }
        assert(decimal(n).last() == digit_char(n % 10));
        assert(digits_value(decimal(n)) == (n / 10) * 10 + n % 10);
        assert((n / 10) * 10 + n % 10 == n) by (nonlinear_arith);
    }
}

/// Writing a number in decimal and parsing it back gives the number: the
/// numbers in default socket names are read back as they were written.
pub proof fn law_decimal_parses_back(n: u32)
    ensures
        parse_u32(decimal(n as nat)) == Some(n),
{
    lemma_decimal_digits(n as nat);
    assert(decimal(n as nat)[0] != '+');
    assert(unsigned_body(decimal(n as nat)) == decimal(n as nat));
}

fn digit_str(d: u32) -> (s: &'static str)
    requires
        d < 10,
    ensures
        s@ == seq![digit_char(d as nat)],
{
    proof {
        reveal_strlit("0");
        reveal_strlit("1");
        reveal_strlit("2");
        reveal_strlit("3");
        reveal_strlit("4");
        reveal_strlit("5");
        reveal_strlit("6");
        reveal_strlit("7");
        reveal_strlit("8");
        reveal_strlit("9");
    }
    let s = if d == 0 {
        "0"
    } else if d == 1 {
        "1"
    } else if d == 2 {
        "2"
    } else if d == 3 {
        "3"
    } else if d == 4 {
        "4"
    } else if d == 5 {
        "5"
    } else if d == 6 {
        "6"
    } else if d == 7 {
        "7"
    } else if d == 8 {
        "8"
    } else {
        "9"
    };
    assert(s@ =~= seq![digit_char(d as nat)]);
    s
}

/// Appends `n` written in decimal.
pub fn append_decimal(s: &mut String, n: u32)
    ensures
        final(s)@ == old(s)@ + decimal(n as nat),
    decreases n,
{
    if n >= 10 {
        append_decimal(s, n / 10);
    }
    let d = digit_str(n % 10);
    s.append(d);
    proof {
        if n >= 10 {
            assert(decimal(n as nat) == decimal((n / 10) as nat).push(digit_char((n % 10) as nat)));
        }
    }
    assert(s@ =~= old(s)@ + decimal(n as nat));
}

proof fn lemma_digits_value_monotone(s: Seq<char>, k: int)
    requires
        0 <= k <= s.len(),
        forall|i: int| 0 <= i < s.len() ==> is_ascii_digit(#[trigger] s[i]),
    ensures
        digits_value(s.take(k)) <= digits_value(s),
    decreases s.len() - k,
{
    if k < s.len() {
        lemma_digits_value_monotone(s, k + 1);
        assert(s.take(k + 1).drop_last() =~= s.take(k));
        assert(is_ascii_digit(s.take(k + 1).last()));
    } else {
        assert(s.take(k) =~= s);
    }
}

/// Parses the characters `s[from..]` as a `u32`, as `str::parse::<u32>`
/// does.
pub fn parse_u32_chars(s: &Vec<char>, from: usize) -> (r: Option<u32>)
    requires
        from <= s@.len(),
    ensures
        r == parse_u32(s@.skip(from as int)),
{
    let ghost t = s@.skip(from as int);
    let mut i = from;
    if i < s.len() && s[i] == '+' {
        i = i + 1;
    }
    let ghost body = unsigned_body(t);
    assert(body =~= s@.skip(i as int));
    if i >= s.len() {
        return None;
    }
    let mut value: u64 = 0;
    let start = i;
    while i < s.len()
        invariant
            start <= i <= s@.len(),
            start < s@.len(),
            t == s@.skip(from as int),
            body == unsigned_body(t),
            body == s@.skip(start as int),
            forall|j: int| start <= j < i ==> is_ascii_digit(#[trigger] s@[j]),
            value == digits_value(s@.subrange(start as int, i as int)),
            value <= u32::MAX,
        decreases s@.len() - i,
    {
        let c = s[i];
        if !('0' <= c && c <= '9') {
            assert(!is_ascii_digit(body[i - start]));
            return None;
        }
        let d = (c as u32 - '0' as u32) as u64;
        assert(s@.subrange(start as int, i + 1).drop_last() =~= s@.subrange(start as int, i as int));
        value = value * 10 + d;
        if value > 0xffff_ffffu64 {
            proof {
                assert forall|j: int| 0 <= j < body.len() implies is_ascii_digit(#[trigger] body[j]) || j > i - start by {}
                if forall|j: int| 0 <= j < body.len() ==> is_ascii_digit(#[trigger] body[j]) {
                    lemma_digits_value_monotone(body, i + 1 - start);
                    assert(body.take(i + 1 - start) =~= s@.subrange(start as int, i + 1));
                }
            }
            return None;
        }
        i = i + 1;
    }
    assert(s@.subrange(start as int, i as int) =~= body);
    Some(value as u32)
}

/// The characters of a string, in order.
pub fn string_chars(s: &String) -> (cs: Vec<char>)
    ensures
        cs@ == s@,
{
    let st = s.as_str();
    let n = st.unicode_len();
    let mut cs: Vec<char> = Vec::new();
    let mut i: usize = 0;
    while i < n
        invariant
            i <= n,
            n == st@.len(),
            st@ == s@,
            cs@ == s@.take(i as int),
        decreases n - i,
    {
        cs.push(st.get_char(i));
        i = i + 1;
        assert(cs@ =~= s@.take(i as int));
    }
    assert(s@.take(n as int) =~= s@);
    cs
}

// ---------------------------------------------------------------------------
// Default socket names
// ---------------------------------------------------------------------------

/// The part's name as the editor prints it.
pub open spec fn part_label(part: ActorPart) -> Seq<char> {
    match part {
        ActorPart::Head => seq!['H', 'e', 'a', 'd'],
        ActorPart::Body => seq!['B', 'o', 'd', 'y'],
        ActorPart::Engine => seq!['E', 'n', 'g', 'i', 'n', 'e'],
    }
}

/// Prefix of the default names of a part's sockets: `Socket_<Part>_`.
pub open spec fn name_prefix(part: ActorPart) -> Seq<char> {
    seq!['S', 'o', 'c', 'k', 'e', 't', '_'] + part_label(part) + seq!['_']
}

/// The number in a socket's default-style name, when the socket belongs to
/// `part` and its name is the prefix followed by a `u32`.
pub open spec fn socket_number(s: SocketInfo, part: ActorPart) -> Option<u32> {
    if s.part == part && name_prefix(part).is_prefix_of(s.name@) {
        parse_u32(s.name@.skip(name_prefix(part).len() as int))
    } else {
        None
    }
}

/// Some socket of `part` is already numbered `k`.
pub open spec fn number_taken(sockets: Seq<SocketInfo>, part: ActorPart, k: u32) -> bool {
    exists|i: int| 0 <= i < sockets.len() && socket_number(#[trigger] sockets[i], part) == Some(k)
}

/// `n` is the smallest number from 1 up that no socket of `part` uses.
pub open spec fn is_next_number(sockets: Seq<SocketInfo>, part: ActorPart, n: u32) -> bool {
    &&& n >= 1
    &&& !number_taken(sockets, part, n)
    &&& forall|k: u32| 1 <= k < n ==> #[trigger] number_taken(sockets, part, k)
}

/// The prefix `Socket_<Part>_`.
pub fn socket_name_prefix(part: ActorPart) -> (s: String)
    ensures
        s@ == name_prefix(part),
{
    proof {
        reveal_strlit("Socket_Head_");
        reveal_strlit("Socket_Body_");
        reveal_strlit("Socket_Engine_");
    }
    let s = match part {
        ActorPart::Head => String::from_str("Socket_Head_"),
        ActorPart::Body => String::from_str("Socket_Body_"),
        ActorPart::Engine => String::from_str("Socket_Engine_"),
    };
    assert(s@ =~= name_prefix(part));
    s
}

fn chars_start_with(s: &Vec<char>, prefix: &Vec<char>) -> (b: bool)
    ensures
        b == prefix@.is_prefix_of(s@),
{
    if prefix.len() > s.len() {
        return false;
    }
    let mut i: usize = 0;
    while i < prefix.len()
        invariant
            i <= prefix@.len() <= s@.len(),
            forall|j: int| 0 <= j < i ==> prefix@[j] == s@[j],
        decreases prefix@.len() - i,
    {
        if prefix[i] != s[i] {
            return false;
        }
        i = i + 1;
    }
    assert(prefix@ =~= s@.take(prefix@.len() as int));
    true
}

fn socket_number_of(s: &SocketInfo, part: ActorPart, prefix: &Vec<char>) -> (r: Option<u32>)
    requires
        prefix@ == name_prefix(part),
    ensures
        r == socket_number(*s, part),
{
    if s.part != part {
        return None;
    }
    let name = string_chars(&s.name);
    if !chars_start_with(&name, prefix) {
        return None;
    }
    parse_u32_chars(&name, prefix.len())
}

fn contains_u32(v: &Vec<u32>, x: u32) -> (b: bool)
    ensures
        b == v@.contains(x),
{
    let mut i: usize = 0;
    while i < v.len()
        invariant
            i <= v@.len(),
            forall|j: int| 0 <= j < i ==> v@[j] != x,
        decreases v@.len() - i,
    {
        if v[i] == x {
            return true;
        }
        i = i + 1;
    }
    false
}

proof fn lemma_pigeonhole(v: Seq<u32>, n: int)
    requires
        n <= u32::MAX + 1,
        forall|k: u32| 1 <= k < n ==> #[trigger] v.contains(k),
    ensures
        n <= v.len() + 1,
{
    if n >= 1 {
        let ints = v.map_values(|x: u32| x as int);
        let range = vstd::set_lib::set_int_range(1, n);
        vstd::set_lib::lemma_int_range(1, n);
        assert forall|k: int| range.contains(k) implies ints.to_set().contains(k) by {
            assert(v.contains(k as u32));
            let j = choose|j: int| 0 <= j < v.len() && v[j] == k as u32;
            assert(ints[j] == k);
        }
        assert(range.subset_of(ints.to_set()));
        ints.lemma_cardinality_of_set();
        vstd::seq_lib::seq_to_set_is_finite(ints);
        vstd::set_lib::lemma_len_subset(range, ints.to_set());
    }
}

/// The smallest number from 1 up that no socket of `part` already uses in a
/// name of the form `Socket_<Part>_<number>`.
pub fn next_socket_number(part: ActorPart, sockets: &Vec<SocketInfo>) -> (n: u32)
    requires
        sockets@.len() < u32::MAX,
    ensures
        is_next_number(sockets@, part, n),
{
    let prefix_string = socket_name_prefix(part);
    let prefix = string_chars(&prefix_string);
    let mut taken: Vec<u32> = Vec::new();
    let mut i: usize = 0;
    while i < sockets.len()
        invariant
            i <= sockets@.len(),
            prefix@ == name_prefix(part),
            taken@.len() <= i,
            forall|k: u32| #[trigger] taken@.contains(k) <==> exists|j: int|
                0 <= j < i && socket_number(#[trigger] sockets@[j], part) == Some(k),
        decreases sockets@.len() - i,
    {
        let num = socket_number_of(&sockets[i], part, &prefix);
        let ghost old_taken = taken@;
        match num {
            Some(k) => {
                taken.push(k);
            },
            None => {},
        }
        proof {
            assert forall|k: u32| #[trigger] taken@.contains(k) <==> exists|j: int|
                0 <= j < i + 1 && socket_number(#[trigger] sockets@[j], part) == Some(k) by {
                if taken@.contains(k) {
                    if old_taken.contains(k) {
                        let j = choose|j: int| 0 <= j < i && socket_number(#[trigger] sockets@[j], part) == Some(k);
                        assert(0 <= j < i + 1);
                    } else {
                        let t = choose|t: int| 0 <= t < taken@.len() && taken@[t] == k;
                        if t < old_taken.len() {
                            assert(old_taken.contains(k));
                        }
                        assert(socket_number(sockets@[i as int], part) == Some(k));
                    }
                }
                if exists|j: int| 0 <= j < i + 1 && socket_number(#[trigger] sockets@[j], part) == Some(k) {
                    let j = choose|j: int| 0 <= j < i + 1 && socket_number(#[trigger] sockets@[j], part) == Some(k);
                    if j < i {
                        assert(old_taken.contains(k));
                        let t = choose|t: int| 0 <= t < old_taken.len() && old_taken[t] == k;
                        assert(taken@[t] == k);
                    } else {
                        assert(taken@[taken@.len() - 1] == k);
                    }
                }
            }
        }
        i = i + 1;
    }
    let mut n: u32 = 1;
    while contains_u32(&taken, n)
        invariant
            1 <= n,
            taken@.len() <= sockets@.len() < u32::MAX,
            forall|k: u32| 1 <= k < n ==> #[trigger] taken@.contains(k),
        decreases u32::MAX - n,
    {
        proof {
            lemma_pigeonhole(taken@, n + 1);
        }
        n = n + 1;
    }
    proof {
        assert forall|k: u32| 1 <= k < n implies #[trigger] number_taken(sockets@, part, k) by {
            assert(taken@.contains(k));
        }
        if number_taken(sockets@, part, n) {
            let j = choose|j: int| 0 <= j < sockets@.len() && socket_number(#[trigger] sockets@[j], part) == Some(n);
            assert(taken@.contains(n));
        }
    }
    n
}

/// The name given to a new socket of `part`: `Socket_<Part>_<n>` where `n`
/// is the smallest number from 1 up not already used that way by a socket
/// of the same part.
pub fn next_socket_name(part: ActorPart, sockets: &Vec<SocketInfo>) -> (name: String)
    requires
        sockets@.len() < u32::MAX,
    ensures
        exists|n: u32| is_next_number(sockets@, part, n) && name@ == name_prefix(part) + decimal(n as nat),
{
    let n = next_socket_number(part, sockets);
    let mut name = socket_name_prefix(part);
    append_decimal(&mut name, n);
    name
}

/// The smallest free number is unique, so `next_socket_name` names exactly
/// one string.
pub proof fn law_next_number_unique(sockets: Seq<SocketInfo>, part: ActorPart, a: u32, b: u32)
    requires
        is_next_number(sockets, part, a),
        is_next_number(sockets, part, b),
    ensures
        a == b,
{
    if a < b {
        assert(number_taken(sockets, part, a));
    } else if b < a {
        assert(number_taken(sockets, part, b));
    }
}

// ---------------------------------------------------------------------------
// Editing names
// ---------------------------------------------------------------------------

/// A name typed for the socket at position `selected` is accepted when it is
/// not empty and no other socket of the same part already has it.  When
/// `selected` names no socket, only emptiness is checked.
pub open spec fn name_accepted(sockets: Seq<SocketInfo>, selected: int, name: Seq<char>) -> bool {
    &&& name.len() > 0
    &&& (0 <= selected < sockets.len() ==> forall|j: int|
        0 <= j < sockets.len() && j != selected && sockets[j].part == sockets[selected].part
            ==> #[trigger] sockets[j].name@ != name)
}

/// A name is refused when it is empty, or when any other socket (at any
/// position other than the selected one) of the selected socket's part
/// already bears exactly that name; a non-empty name that no such socket
/// bears is accepted.
pub proof fn law_duplicate_names_refused(sockets: Seq<SocketInfo>, selected: int, name: Seq<char>, other: int)
    requires
        0 <= selected < sockets.len(),
    ensures
        name.len() == 0 ==> !name_accepted(sockets, selected, name),
        0 <= other < sockets.len() && other != selected && sockets[other].part == sockets[selected].part
            && sockets[other].name@ == name ==> !name_accepted(sockets, selected, name),
        name.len() > 0 && (forall|j: int| 0 <= j < sockets.len() && j != selected && sockets[j].part == sockets[selected].part
            ==> #[trigger] sockets[j].name@ != name) ==> name_accepted(sockets, selected, name),
{
}

/// Whether the name typed for the selected socket is accepted.
pub fn socket_name_is_valid(sockets: &Vec<SocketInfo>, selected: usize, name: &String) -> (ok: bool)
    ensures
        ok == name_accepted(sockets@, selected as int, name@),
{
    if selected < sockets.len() {
        let part = sockets[selected].part;
        let mut j: usize = 0;
        while j < sockets.len()
            invariant
                selected < sockets@.len(),
                part == sockets@[selected as int].part,
                j <= sockets@.len(),
                forall|k: int| 0 <= k < j && k != selected && sockets@[k].part == part ==> #[trigger] sockets@[k].name@ != name@,
            decreases sockets@.len() - j,
        {
            if j != selected && sockets[j].part == part && sockets[j].name == *name {
                return false;
            }
            j = j + 1;
        }
    }
    let empty = name.as_str().is_empty();
    !empty
}

// ---------------------------------------------------------------------------
// Socket list filter
// ---------------------------------------------------------------------------

/// Lower-case form of a string, as `str::to_lowercase` computes it.
pub uninterp spec fn lowercase(s: Seq<char>) -> Seq<char>;

/// Lower-cases a string.
///
/// Calls `str::to_lowercase`.  The contract names the result
/// (`lowercase`) and claims only that it depends on the characters of the
/// input alone; the Unicode case mapping itself is not stated.
#[verifier::external_body]
pub(crate) fn to_lowercase(s: &str) -> (r: String)
    ensures
        r@ == lowercase(s@),
{
    s.to_lowercase()
}

/// `pattern` occurs in `text` as a run of consecutive characters.
pub open spec fn contains_chars(text: Seq<char>, pattern: Seq<char>) -> bool {
    exists|i: int| 0 <= i <= text.len() - pattern.len() && #[trigger] text.subrange(i, i + pattern.len()) == pattern
}

pub(crate) fn find_chars(text: &Vec<char>, pattern: &Vec<char>) -> (found: bool)
    ensures
        found == contains_chars(text@, pattern@),
{
    if pattern.len() == 0 {
        assert(text@.subrange(0, 0 + pattern@.len() as int) =~= pattern@);
        return true;
    }
    if pattern.len() > text.len() {
        return false;
    }
    let last = text.len() - pattern.len();
    let mut i: usize = 0;
    while i < last + 1
        invariant
            pattern@.len() > 0,
            text@.len() == text.len(),
            last == text@.len() - pattern@.len(),
            i <= last + 1,
            forall|s: int| 0 <= s < i ==> #[trigger] text@.subrange(s, s + pattern@.len()) != pattern@,
        decreases last + 1 - i,
    {
        let mut k: usize = 0;
        let mut same = true;
        while k < pattern.len()
            invariant
                i <= last,
                text@.len() == text.len(),
                last == text@.len() - pattern@.len(),
                k <= pattern@.len(),
                same == forall|m: int| 0 <= m < k ==> text@[i + m] == pattern@[m],
            decreases pattern@.len() - k,
        {
            if text[i + k] != pattern[k] {
                same = false;
            }
            k = k + 1;
        }
        if same {
            assert(text@.subrange(i as int, i + pattern@.len()) =~= pattern@);
            return true;
        }
        assert(text@.subrange(i as int, i + pattern@.len()) != pattern@) by {
            let m = choose|m: int| 0 <= m < pattern@.len() && text@[i + m] != pattern@[m];
            assert(text@.subrange(i as int, i + pattern@.len())[m] != pattern@[m]);
        }
        i = i + 1;
    }
    assert forall|s: int| 0 <= s <= text@.len() - pattern@.len() implies #[trigger] text@.subrange(s, s + pattern@.len()) != pattern@ by {
        assert(s < i + 1);
    }
    false
}

/// A socket is listed when the search text is empty or occurs in its name
/// (both lower-cased), and the part filter is off or names its part.
pub open spec fn socket_listed(name: Seq<char>, part: ActorPart, search: Seq<char>, part_filter: Option<ActorPart>) -> bool {
    &&& (search.len() == 0 || contains_chars(lowercase(name), lowercase(search)))
    &&& (part_filter is None || part_filter == Some(part))
}

/// With no search text and no part filter every socket is listed; a part
/// filter hides every socket of another part; a listed socket always
/// passes the part filter.
pub proof fn law_socket_filter(name: Seq<char>, part: ActorPart, search: Seq<char>, part_filter: Option<ActorPart>)
    ensures
        search.len() == 0 && part_filter is None ==> socket_listed(name, part, search, part_filter),
        search.len() == 0 && part_filter == Some(part) ==> socket_listed(name, part, search, part_filter),
        (exists|other: ActorPart| other != part && part_filter == Some(other)) ==> !socket_listed(name, part, search, part_filter),
{
}

/// The socket list's search text and part filter.
pub struct SocketFilterState {
    pub search_text: String,
    pub part_filter: Option<ActorPart>,
}

impl SocketFilterState {
    /// No search text and no part filter: every socket is listed.
    pub fn new() -> (f: Self)
        ensures
            f.search_text@.len() == 0,
            f.part_filter is None,
    {
        SocketFilterState { search_text: String::new(), part_filter: None }
    }

    /// Whether a socket stays visible in the filtered socket list.
    pub fn shows(&self, name: &String, part: ActorPart) -> (shown: bool)
        ensures
            shown == socket_listed(name@, part, self.search_text@, self.part_filter),
    {
        let matches_search = if self.search_text.as_str().is_empty() {
            true
        } else {
            let lower_name = to_lowercase(name.as_str());
            let lower_search = to_lowercase(self.search_text.as_str());
            let n = string_chars(&lower_name);
            let p = string_chars(&lower_search);
            find_chars(&n, &p)
        };
        let matches_part = match self.part_filter {
            None => true,
            Some(f) => f == part,
        };
        matches_search && matches_part
    }
}

} // verus!
