//! The line-oriented negotiation grammar: `pub <tag>` or `sub <tag>`,
//! whitespace-delimited, anything else ignored.

use vstd::prelude::*;

verus! {

/// The role a connection declares against a room.
#[derive(Clone, Copy, PartialEq, Eq, Structural, Debug)]
pub enum Role {
    Publisher,
    Subscriber,
}

/// What a connection handler is doing: still negotiating, or pumping one
/// room as a publisher, or pumping one subscription as a subscriber.
#[derive(Clone, Copy, PartialEq, Eq, Structural, Debug)]
pub enum ConnState {
    Negotiating,
    Publishing { room: usize },
    Subscribing { room: usize, sub: usize },
}

/// ASCII whitespace as the wire grammar knows it: space, tab, CR, LF.
pub open spec fn is_ws(b: u8) -> bool {
    b == 32 || b == 9 || b == 13 || b == 10
}

/// First position at or after `i` that does not hold whitespace.
pub open spec fn ws_end(s: Seq<u8>, i: int) -> int
    decreases s.len() - i when 0 <= i <= s.len()
{
    if i < s.len() && is_ws(s[i]) {
        ws_end(s, i + 1)
    } else {
        i
    }
}

/// First position at or after `i` that ends the token starting there.
pub open spec fn tok_end(s: Seq<u8>, i: int) -> int
    decreases s.len() - i when 0 <= i <= s.len()
{
    if i < s.len() && !is_ws(s[i]) {
        tok_end(s, i + 1)
    } else {
        i
    }
}

pub proof fn lemma_ws_end(s: Seq<u8>, i: int, j: int)
    requires
        0 <= i <= j <= s.len(),
        forall|k: int| i <= k < j ==> is_ws(s[k]),
        j == s.len() || !is_ws(s[j]),
    ensures
        ws_end(s, i) == j,
    decreases j - i,
{
    if i < j {
        lemma_ws_end(s, i + 1, j);
    }
}

pub proof fn lemma_tok_end(s: Seq<u8>, i: int, j: int)
    requires
        0 <= i <= j <= s.len(),
        forall|k: int| i <= k < j ==> !is_ws(s[k]),
        j == s.len() || is_ws(s[j]),
    ensures
        tok_end(s, i) == j,
    decreases j - i,
{
    if i < j {
        lemma_tok_end(s, i + 1, j);
    }
}

/// The keyword that declares each role on the wire: `pub`, `sub`.
pub open spec fn role_keyword(r: Role) -> Seq<u8> {
    match r {
        Role::Publisher => seq![112u8, 117u8, 98u8],
        Role::Subscriber => seq![115u8, 117u8, 98u8],
    }
}

/// What one negotiation line means: its first whitespace-delimited token must
/// be a role keyword and a second token (the tag) must follow; everything
/// after the tag is ignored. Any other line means nothing.
pub open spec fn parse_spec(s: Seq<u8>) -> Option<(Role, Seq<u8>)> {
    let a = ws_end(s, 0);
    let b = tok_end(s, a);
    let c = ws_end(s, b);
    let d = tok_end(s, c);
    let role_tok = s.subrange(a, b);
    let tag = s.subrange(c, d);
    if tag.len() == 0 {
        None
    } else if role_tok == role_keyword(Role::Publisher) {
        Some((Role::Publisher, tag))
    } else if role_tok == role_keyword(Role::Subscriber) {
        Some((Role::Subscriber, tag))
    } else {
        None
    }
}

/// Parse one negotiation line. `None` means the line is not a valid
/// negotiation and is to be ignored.
pub fn parse_negotiation(line: &[u8]) -> (r: Option<(Role, Vec<u8>)>)
    ensures
        match r {
            Some(rt) => parse_spec(line@) == Some((rt.0, rt.1@)),
            None => parse_spec(line@) is None,
        },
{
    let n = line.len();
    let mut a: usize = 0;
    while a < n && (line[a] == 32 || line[a] == 9 || line[a] == 13 || line[a] == 10)
        invariant
            a <= n,
            n == line@.len(),
            forall|k: int| 0 <= k < a ==> is_ws(line@[k]),
        decreases n - a,
    {
        a += 1;
    }
    let mut b: usize = a;
    while b < n && !(line[b] == 32 || line[b] == 9 || line[b] == 13 || line[b] == 10)
        invariant
            a <= b <= n,
            n == line@.len(),
            forall|k: int| a <= k < b ==> !is_ws(line@[k]),
        decreases n - b,
    {
        b += 1;
    }
    let mut c: usize = b;
    while c < n && (line[c] == 32 || line[c] == 9 || line[c] == 13 || line[c] == 10)
        invariant
            b <= c <= n,
            n == line@.len(),
            forall|k: int| b <= k < c ==> is_ws(line@[k]),
        decreases n - c,
    {
        c += 1;
    }
    let mut d: usize = c;
    while d < n && !(line[d] == 32 || line[d] == 9 || line[d] == 13 || line[d] == 10)
        invariant
            c <= d <= n,
            n == line@.len(),
            forall|k: int| c <= k < d ==> !is_ws(line@[k]),
        decreases n - d,
    {
        d += 1;
    }
    proof {
        lemma_ws_end(line@, 0, a as int);
        lemma_tok_end(line@, a as int, b as int);
        lemma_ws_end(line@, b as int, c as int);
        lemma_tok_end(line@, c as int, d as int);
        assert(line@.subrange(a as int, b as int).len() == b - a);
        assert(line@.subrange(c as int, d as int).len() == d - c);
    }
    if d == c {
        // no tag token
        return None;
    }
    let is_pub = b - a == 3 && line[a] == 112 && line[a + 1] == 117 && line[a + 2] == 98;
    let is_sub = b - a == 3 && line[a] == 115 && line[a + 1] == 117 && line[a + 2] == 98;
    proof {
        let role_tok = line@.subrange(a as int, b as int);
        if b - a == 3 {
            assert(role_tok[0] == line@[a as int]);
            assert(role_tok[1] == line@[a as int + 1]);
            assert(role_tok[2] == line@[a as int + 2]);
            if is_pub {
                assert(role_tok =~= role_keyword(Role::Publisher));
            } else {
                assert(role_tok != role_keyword(Role::Publisher));
            }
            if is_sub {
                assert(role_tok =~= role_keyword(Role::Subscriber));
            } else {
                assert(role_tok != role_keyword(Role::Subscriber));
            }
        } else {
            assert(role_tok.len() != 3);
            assert(role_tok != role_keyword(Role::Publisher));
            assert(role_tok != role_keyword(Role::Subscriber));
        }
    }
    if !is_pub && !is_sub {
        return None;
    }
    let mut tag: Vec<u8> = Vec::new();
    tag.extend_from_slice(&line[c..d]);
    proof {
        let sl = line@.subrange(c as int, d as int);
        assert forall|k: int| 0 <= k < sl.len() implies tag@[k] == sl[k] by {
            assert(cloned::<u8>(sl[k], tag@[k]));
        }
        assert(tag@ =~= sl);
    }
    if is_pub {
        Some((Role::Publisher, tag))
    } else {
        Some((Role::Subscriber, tag))
    }
}

} // verus!
