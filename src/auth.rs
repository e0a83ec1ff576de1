//! Reading the sign-in callback: the request line the browser sends back
//! after the user logs in, which carries a session token and the user's id.
use vstd::prelude::*;
use vstd::string::StrSliceExecFns;
use vstd::string::StringExecFns;

use crate::cloud::AuthResult;

verus! {

/// Unicode white space, as `char::is_whitespace` has it.
pub open spec fn is_whitespace(c: char) -> bool {
    let u = c as u32;
    (0x09 <= u <= 0x0D) || u == 0x20 || u == 0x85 || u == 0xA0 || u == 0x1680 || (0x2000 <= u
        <= 0x200A) || u == 0x2028 || u == 0x2029 || u == 0x202F || u == 0x205F || u == 0x3000
}

/// First index from `i` on that is not white space, or the length.
pub open spec fn skip_spaces(s: Seq<char>, i: nat) -> nat
    decreases s.len() - i,
{
    if i >= s.len() {
        i
    } else if is_whitespace(s[i as int]) {
        skip_spaces(s, i + 1)
    } else {
        i
    }
}

/// First index from `i` on that is white space, or the length.
pub open spec fn skip_word(s: Seq<char>, i: nat) -> nat
    decreases s.len() - i,
{
    if i >= s.len() {
        i
    } else if !is_whitespace(s[i as int]) {
        skip_word(s, i + 1)
    } else {
        i
    }
}

/// Start and end of the second white-space separated word, if any.
pub open spec fn second_word(s: Seq<char>) -> Option<(nat, nat)> {
    let b = skip_spaces(s, skip_word(s, skip_spaces(s, 0)));
    if b >= s.len() {
        None
    } else {
        Some((b, skip_word(s, b)))
    }
}

/// First index from `i` on holding `c`, or -1.
pub open spec fn find_from(s: Seq<char>, c: char, i: nat) -> int
    decreases s.len() - i,
{
    if i >= s.len() {
        -1
    } else if s[i as int] == c {
        i as int
    } else {
        find_from(s, c, i + 1)
    }
}

/// `pat` occurs in `s`.
pub open spec fn occurs(s: Seq<char>, pat: Seq<char>) -> bool {
    exists|i: int| 0 <= i <= s.len() - pat.len() && #[trigger] s.subrange(i, i + pat.len()) == pat
}

/// What follows `key` when `seg` starts with it.
pub open spec fn strip_key(seg: Seq<char>, key: Seq<char>) -> Option<Seq<char>> {
    if key.len() <= seg.len() && seg.subrange(0, key.len() as int) == key {
        Some(seg.subrange(key.len() as int, seg.len() as int))
    } else {
        None
    }
}

/// End of the '&'-separated parameter starting at `i`.
pub open spec fn param_end(q: Seq<char>, i: nat) -> nat {
    let f = find_from(q, '&', i);
    if f < 0 {
        q.len()
    } else {
        f as nat
    }
}

/// The value of the last parameter from `i` on that starts with `key`,
/// or `acc` where none does.
pub open spec fn last_param(q: Seq<char>, key: Seq<char>, i: nat, acc: Option<Seq<char>>) -> Option<
    Seq<char>,
>
    decreases q.len() + 1 - i,
{
    if i > q.len() {
        acc
    } else {
        let e = param_end(q, i);
        let acc2 = match strip_key(q.subrange(i as int, e as int), key) {
            Some(v) => Some(v),
            None => acc,
        };
        if i <= e < q.len() {
            last_param(q, key, e + 1, acc2)
        } else {
            acc2
        }
    }
}

/// The value of the first parameter that starts with `key`, `acc` being
/// the one found before `i`.
pub open spec fn first_param(q: Seq<char>, key: Seq<char>, i: nat, acc: Option<Seq<char>>) -> Option<
    Seq<char>,
>
    decreases q.len() + 1 - i,
{
    if i > q.len() {
        acc
    } else {
        let e = param_end(q, i);
        let acc2 = if acc is Some {
            acc
        } else {
            strip_key(q.subrange(i as int, e as int), key)
        };
        if i <= e < q.len() {
            first_param(q, key, e + 1, acc2)
        } else {
            acc2
        }
    }
}

/// The query of a path: from after its first '?' to its next '?' or end.
pub open spec fn query_of(path: Seq<char>) -> Option<Seq<char>> {
    let q0 = find_from(path, '?', 0);
    if q0 < 0 {
        None
    } else {
        let q1 = find_from(path, '?', (q0 + 1) as nat);
        Some(
            path.subrange(
                q0 + 1,
                if q1 < 0 {
                    path.len() as int
                } else {
                    q1
                },
            ),
        )
    }
}

/// What a callback request line yields: the token and user id, or the
/// message of what is wrong with it.
pub open spec fn callback_outcome(req: Seq<char>) -> Result<(Seq<char>, Seq<char>), Seq<char>> {
    match second_word(req) {
        None => Err("Invalid request"@),
        Some(span) => {
            let path = req.subrange(span.0 as int, span.1 as int);
            let query = query_of(path);
            if occurs(path, "error="@) {
                let detail = match query {
                    None => "unknown"@,
                    Some(q) => match first_param(q, "error="@, 0, None) {
                        Some(v) => v,
                        None => "unknown"@,
                    },
                };
                Err("Steam login failed: "@ + detail)
            } else {
                match query {
                    None => Err("Missing query params"@),
                    Some(q) => match last_param(q, "token="@, 0, None) {
                        Some(t) => match last_param(q, "steam_id="@, 0, None) {
                            Some(id) => Ok((t, id)),
                            None => Err("Missing token or steam_id in callback"@),
                        },
                        None => Err("Missing token or steam_id in callback"@),
                    },
                }
            }
        },
    }
}

proof fn lemma_skip_bounds(s: Seq<char>, i: nat)
    requires
        i <= s.len(),
    ensures
        i <= skip_spaces(s, i) <= s.len(),
        i <= skip_word(s, i) <= s.len(),
    decreases s.len() - i,
{
    if i < s.len() {
        lemma_skip_bounds(s, i + 1);
    }
}

proof fn lemma_find_from_bounds(s: Seq<char>, c: char, i: nat)
    ensures
        find_from(s, c, i) == -1 || (i <= find_from(s, c, i) < s.len() && s[find_from(s, c, i)]
            == c),
    decreases s.len() - i,
{
    if i < s.len() {
        lemma_find_from_bounds(s, c, i + 1);
    }
}

fn is_space(c: char) -> (r: bool)
    ensures
        r == is_whitespace(c),
{
    let u = c as u32;
    (0x09 <= u && u <= 0x0D) || u == 0x20 || u == 0x85 || u == 0xA0 || u == 0x1680 || (0x2000
        <= u && u <= 0x200A) || u == 0x2028 || u == 0x2029 || u == 0x202F || u == 0x205F || u
        == 0x3000
}

fn skip_spaces_from(s: &str, n: usize, i: usize) -> (r: usize)
    requires
        n == s@.len(),
        i <= n,
    ensures
        r == skip_spaces(s@, i as nat),
{
    let mut j = i;
    while j < n && is_space(s.get_char(j))
        invariant
            i <= j <= n == s@.len(),
            skip_spaces(s@, j as nat) == skip_spaces(s@, i as nat),
        decreases n - j,
    {
        j = j + 1;
    }
    j
}

fn skip_word_from(s: &str, n: usize, i: usize) -> (r: usize)
    requires
        n == s@.len(),
        i <= n,
    ensures
        r == skip_word(s@, i as nat),
{
    let mut j = i;
    while j < n && !is_space(s.get_char(j))
        invariant
            i <= j <= n == s@.len(),
            skip_word(s@, j as nat) == skip_word(s@, i as nat),
        decreases n - j,
    {
        j = j + 1;
    }
    j
}

fn find_char_from(s: &str, n: usize, c: char, i: usize) -> (r: Option<usize>)
    requires
        n == s@.len(),
        i <= n,
    ensures
        match r {
            Some(k) => k as int == find_from(s@, c, i as nat),
            None => find_from(s@, c, i as nat) == -1,
        },
{
    let mut j = i;
    while j < n
        invariant
            i <= j <= n == s@.len(),
            find_from(s@, c, j as nat) == find_from(s@, c, i as nat),
        decreases n - j,
    {
        if s.get_char(j) == c {
            return Some(j);
        }
        j = j + 1;
    }
    None
}

/// Whether `pat` stands in `s` at `i`.
fn matches_at(s: &str, n: usize, pat: &str, m: usize, i: usize) -> (r: bool)
    requires
        n == s@.len(),
        m == pat@.len(),
        i <= n,
    ensures
        r == (i + m <= n && s@.subrange(i as int, i + m) == pat@),
{
    if m > n - i {
        return false;
    }
    let mut k: usize = 0;
    while k < m
        invariant
            k <= m,
            i + m <= n == s@.len(),
            m == pat@.len(),
            forall|j: int| 0 <= j < k ==> s@[i + j] == pat@[j],
        decreases m - k,
    {
        if s.get_char(i + k) != pat.get_char(k) {
            assert(s@.subrange(i as int, i + m)[k as int] != pat@[k as int]);
            return false;
        }
        k = k + 1;
    }
    assert(s@.subrange(i as int, i + m) =~= pat@);
    true
}

pub(crate) fn occurs_in(s: &str, pat: &str) -> (r: bool)
    ensures
        r == occurs(s@, pat@),
{
    let n = s.unicode_len();
    let m = pat.unicode_len();
    if m > n {
        return false;
    }
    if m == 0 {
        assert(s@.subrange(0int, 0int + pat@.len()) =~= pat@);
        return true;
    }
    let mut i: usize = 0;
    while i <= n - m
        invariant
            n == s@.len(),
            m == pat@.len(),
            1 <= m <= n,
            i <= n - m + 1,
            forall|j: int| 0 <= j < i ==> #[trigger] s@.subrange(j, j + m) != pat@,
        decreases n - m + 1 - i,
    {
        if matches_at(s, n, pat, m, i) {
            assert(s@.subrange(i as int, i + pat@.len()) == pat@);
            return true;
        }
        i = i + 1;
    }
    false
}

/// The value after `key` in the parameter `seg`, when it starts with it.
pub(crate) fn strip_key_exec(seg: &str, key: &str) -> (r: Option<String>)
    ensures
        match r {
            Some(v) => strip_key(seg@, key@) == Some(v@),
            None => strip_key(seg@, key@) is None,
        },
{
    let n = seg.unicode_len();
    let m = key.unicode_len();
    if matches_at(seg, n, key, m, 0) {
        Some(seg.substring_char(m, n).to_string())
    } else {
        None
    }
}

/// The value of the last (or, with `first`, the first) parameter of `q`
/// that starts with `key`.
fn param_value(q: &str, key: &str, first: bool) -> (r: Option<String>)
    ensures
        first ==> match r {
            Some(v) => first_param(q@, key@, 0, None) == Some(v@),
            None => first_param(q@, key@, 0, None) is None,
        },
        !first ==> match r {
            Some(v) => last_param(q@, key@, 0, None) == Some(v@),
            None => last_param(q@, key@, 0, None) is None,
        },
{
    let n = q.unicode_len();
    let mut i: usize = 0;
    let mut acc: Option<String> = None;
    let mut done = false;
    while !done
        invariant
            n == q@.len(),
            i <= n,
            first ==> first_param(q@, key@, 0, None) == (if done {
                match acc {
                    Some(v) => Some(v@),
                    None => None,
                }
            } else {
                first_param(
                    q@,
                    key@,
                    i as nat,
                    match acc {
                        Some(v) => Some(v@),
                        None => None,
                    },
                )
            }),
            !first ==> last_param(q@, key@, 0, None) == (if done {
                match acc {
                    Some(v) => Some(v@),
                    None => None,
                }
            } else {
                last_param(
                    q@,
                    key@,
                    i as nat,
                    match acc {
                        Some(v) => Some(v@),
                        None => None,
                    },
                )
            }),
        decreases (if done { 0 } else { n + 1 - i }),
    {
        proof {
            lemma_find_from_bounds(q@, '&', i as nat);
        }
        let e = match find_char_from(q, n, '&', i) {
            Some(k) => k,
            None => n,
        };
        let seg = q.substring_char(i, e);
        if !(first && acc.is_some()) {
            if let Some(v) = strip_key_exec(seg, key) {
                acc = Some(v);
            }
        }
        if e < n {
            i = e + 1;
        } else {
            done = true;
        }
    }
    acc
}

/// Reads a sign-in callback request line ("GET /callback?token=..&steam_id=..
/// HTTP/1.1"): the token and the user id, or why they cannot be had.
pub fn parse_callback_request(request: &str) -> (r: Result<AuthResult, String>)
    ensures
        match r {
            Ok(a) => callback_outcome(request@) == Ok::<(Seq<char>, Seq<char>), Seq<char>>(
                (a.token@, a.steam_id@),
            ),
            Err(m) => callback_outcome(request@) == Err::<(Seq<char>, Seq<char>), Seq<char>>(m@),
        },
{
    let n = request.unicode_len();
    proof {
        lemma_skip_bounds(request@, 0);
    }
    let a = skip_spaces_from(request, n, 0);
    proof {
        lemma_skip_bounds(request@, a as nat);
    }
    let b0 = skip_word_from(request, n, a);
    proof {
        lemma_skip_bounds(request@, b0 as nat);
    }
    let b = skip_spaces_from(request, n, b0);
    if b >= n {
        return Err("Invalid request".to_string());
    }
    proof {
        lemma_skip_bounds(request@, b as nat);
    }
    let c = skip_word_from(request, n, b);
    let path = request.substring_char(b, c);
    let pn = path.unicode_len();
    proof {
        lemma_find_from_bounds(path@, '?', 0);
    }
    let query: Option<&str> = match find_char_from(path, pn, '?', 0) {
        None => None,
        Some(q0) => {
            proof {
                lemma_find_from_bounds(path@, '?', (q0 + 1) as nat);
            }
            let end = match find_char_from(path, pn, '?', q0 + 1) {
                Some(q1) => q1,
                None => pn,
            };
            Some(path.substring_char(q0 + 1, end))
        },
    };
    assert(query_of(path@) == match query {
        Some(q) => Some(q@),
        None => None::<Seq<char>>,
    });
    if occurs_in(path, "error=") {
        let detail = match query {
            None => "unknown".to_string(),
            Some(q) => match param_value(q, "error=", true) {
                Some(v) => v,
                None => "unknown".to_string(),
            },
        };
        let mut message = "Steam login failed: ".to_string();
        message.append(detail.as_str());
        return Err(message);
    }
    match query {
        None => Err("Missing query params".to_string()),
        Some(q) => match param_value(q, "token=", false) {
            Some(token) => match param_value(q, "steam_id=", false) {
                Some(steam_id) => Ok(AuthResult { token, steam_id }),
                None => Err("Missing token or steam_id in callback".to_string()),
            },
            None => Err("Missing token or steam_id in callback".to_string()),
        },
    }
}

} // verus!
