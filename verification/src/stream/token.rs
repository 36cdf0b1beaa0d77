//! The token registry: each token opens one streaming session, once, within a minute.

use crate::text::same_text;
use vstd::prelude::*;

verus! {

/// What a streaming session does.
#[derive(Clone, Copy, Debug, PartialEq, Eq, Structural)]
pub enum StreamVerb {
    Exec,
    Attach,
    PortForward,
}

/// What a streaming session is asked to do.
#[derive(Debug, PartialEq, Eq)]
pub struct StreamParams {
    pub container: Option<String>,
    pub sandbox: Option<String>,
    pub cmd: Vec<String>,
    pub tty: bool,
    pub stdin: bool,
    pub ports: Vec<i32>,
}

/// A token that was handed out and not used yet.
#[derive(Debug, PartialEq, Eq)]
struct Grant {
    token: String,
    verb: StreamVerb,
    params: StreamParams,
    minted_nanos: u64,
}

/// What a token stands for.
pub struct GrantView {
    pub token: Seq<char>,
    pub verb: StreamVerb,
    pub params: StreamParams,
    pub minted_nanos: u64,
}

/// How long a token can be used: one minute.
pub const TOKEN_TTL_NANOS: u64 = 60_000_000_000;

/// How many tokens can wait to be used.
pub const TOKEN_CAP: usize = 1000;

impl GrantView {
    /// Whether the token can still be used at `now_nanos`.
    pub open spec fn live(self, now_nanos: u64) -> bool {
        now_nanos < self.minted_nanos + TOKEN_TTL_NANOS
    }
}

impl Grant {
    spec fn view(self) -> GrantView {
        GrantView {
            token: self.token@,
            verb: self.verb,
            params: self.params,
            minted_nanos: self.minted_nanos,
        }
    }

    fn is_live(&self, now_nanos: u64) -> (r: bool)
        ensures
            r == self@.live(now_nanos),
    {
        now_nanos < self.minted_nanos || now_nanos - self.minted_nanos < TOKEN_TTL_NANOS
    }
}

/// The digit of value `v` in the URL-safe base64 alphabet.
pub open spec fn base64url_digit(v: nat) -> char {
    if v < 26 {
        (65 + v) as char
    } else if v < 52 {
        (71 + v) as char
    } else if v < 62 {
        (v - 4) as char
    } else if v == 62 {
        '-'
    } else {
        '_'
    }
}

/// Three bytes as one number.
pub open spec fn three_bytes(a: u8, b: u8, c: u8) -> nat {
    (a * 65536 + b * 256 + c) as nat
}

/// The four base64 digits of a number below 2^24.
pub open spec fn base64url_group(n: nat) -> Seq<char> {
    seq![
        base64url_digit(n / 262144),
        base64url_digit(n / 4096 % 64),
        base64url_digit(n / 64 % 64),
        base64url_digit(n % 64),
    ]
}

/// The token made of six bytes: their URL-safe base64, eight characters.
pub open spec fn token_text(random: Seq<u8>) -> Seq<char> {
    base64url_group(three_bytes(random[0], random[1], random[2])) + base64url_group(
        three_bytes(random[3], random[4], random[5]),
    )
}

fn base64url_char(v: u32) -> (c: char)
    requires
        v < 64,
    ensures
        c == base64url_digit(v as nat),
{
    if v < 26 {
        (65u8 + v as u8) as char
    } else if v < 52 {
        (71u8 + v as u8) as char
    } else if v < 62 {
        (v as u8 - 4) as char
    } else if v == 62 {
        '-'
    } else {
        '_'
    }
}

fn push_base64url_group(s: &mut String, a: u8, b: u8, c: u8)
    ensures
        final(s)@ == old(s)@ + base64url_group(three_bytes(a, b, c)),
{
    let n: u32 = a as u32 * 65536 + b as u32 * 256 + c as u32;
    s.push(base64url_char(n / 262144));
    s.push(base64url_char(n / 4096 % 64));
    s.push(base64url_char(n / 64 % 64));
    s.push(base64url_char(n % 64));
    assert(s@ =~= old(s)@ + base64url_group(three_bytes(a, b, c)));
}

/// The tokens that were handed out and not used yet, in the order in which they were minted.
#[derive(Debug)]
pub struct TokenRegistry {
    grants: Vec<Grant>,
}

/// The grants with another token than `token`.
pub open spec fn others(grants: Seq<GrantView>, token: Seq<char>) -> Seq<GrantView> {
    grants.filter(|g: GrantView| g.token != token)
}

/// The grants that can be used at `now_nanos`.
pub open spec fn unexpired(grants: Seq<GrantView>, now_nanos: u64) -> Seq<GrantView> {
    grants.filter(|g: GrantView| g.live(now_nanos))
}

/// The grants with room for one more: if they are too many, the oldest give way.
pub open spec fn with_room(grants: Seq<GrantView>) -> Seq<GrantView> {
    if grants.len() >= TOKEN_CAP {
        grants.skip(grants.len() - TOKEN_CAP + 1)
    } else {
        grants
    }
}

impl View for TokenRegistry {
    type V = Seq<GrantView>;

    closed spec fn view(&self) -> Seq<GrantView> {
        Seq::new(self.grants@.len(), |i: int| self.grants@[i]@)
    }
}

impl TokenRegistry {
    /// Each token stands for one grant, and there are no more than the cap.
    pub open spec fn wf(self) -> bool {
        &&& self@.len() <= TOKEN_CAP
        &&& forall|i: int, j: int|
            #![trigger self@[i], self@[j]]
            0 <= i < j < self@.len() ==> self@[i].token != self@[j].token
    }

    /// A registry without tokens.
    pub fn new() -> (r: Self)
        ensures
            r.wf(),
            r@ == Seq::<GrantView>::empty(),
    {
        let r = TokenRegistry { grants: Vec::new() };
        assert(r@ =~= Seq::<GrantView>::empty());
        r
    }

    /// How many tokens wait to be used.
    pub fn len(&self) -> (n: usize)
        ensures
            n == self@.len(),
    {
        self.grants.len()
    }

    /// Mints a token for one session out of six random bytes. Tokens that have expired are
    /// forgotten; where the registry is still full, the oldest token is.
    pub fn mint(
        &mut self,
        verb: StreamVerb,
        params: StreamParams,
        random: [u8; 6],
        now_nanos: u64,
    ) -> (token: String)
        requires
            old(self).wf(),
        ensures
            final(self).wf(),
            token@ == token_text(random@),
            final(self)@ == with_room(others(unexpired(old(self)@, now_nanos), token@)).push(
                GrantView { token: token@, verb, params, minted_nanos: now_nanos },
            ),
    {
        let mut token = String::new();
        push_base64url_group(&mut token, random[0], random[1], random[2]);
        push_base64url_group(&mut token, random[3], random[4], random[5]);
        assert(token@ =~= token_text(random@));
        let ghost p = |g: GrantView| g.live(now_nanos);
        let ghost q = |g: GrantView| g.token != token@;
        let ghost start = self@;
        let mut grants: Vec<Grant> = Vec::new();
        let mut rest: Vec<Grant> = Vec::new();
        std::mem::swap(&mut rest, &mut self.grants);
        let ghost all = rest@;
        let ghost mut i: int = 0;
        while rest.len() > 0
            invariant
                0 <= i <= all.len(),
                start.len() == all.len(),
                forall|j: int| 0 <= j < all.len() ==> start[j] == #[trigger] all[j]@,
                rest@ == all.skip(i),
                Seq::new(grants@.len(), |j: int| grants@[j]@) == start.take(i).filter(p).filter(q),
                p == (|g: GrantView| g.live(now_nanos)),
                q == (|g: GrantView| g.token != token@),
            decreases rest@.len(),
        {
            let ghost kept = Seq::new(grants@.len(), |j: int| grants@[j]@);
            let grant = rest.remove(0);
            proof {
                crate::seqs::lemma_filter_take(start, p, i);
                if p(start[i]) {
                    crate::seqs::lemma_filter_push(start.take(i).filter(p), q, start[i]);
                }
            }
            if grant.is_live(now_nanos) && !same_text(grant.token.as_str(), token.as_str()) {
                grants.push(grant);
                assert(Seq::new(grants@.len(), |j: int| grants@[j]@) =~= kept.push(start[i]));
            }
            proof {
                assert(rest@ =~= all.skip(i + 1));
                i = i + 1;
            }
        }
        assert(start.take(i) == start);
        let ghost kept = others(unexpired(start, now_nanos), token@);
        assert(Seq::new(grants@.len(), |j: int| grants@[j]@) == kept);
        proof {
            lemma_filter_unique(start, p);
            lemma_filter_unique(start.filter(p), q);
            start.lemma_filter_len(p);
            start.filter(p).lemma_filter_len(q);
        }
        if grants.len() >= TOKEN_CAP {
            let _ = grants.remove(0);
        }
        assert(Seq::new(grants@.len(), |j: int| grants@[j]@) =~= with_room(kept));
        grants.push(Grant { token: token.clone(), verb, params, minted_nanos: now_nanos });
        self.grants = grants;
        proof {
            let g = GrantView { token: token@, verb, params, minted_nanos: now_nanos };
            assert(self@ =~= with_room(kept).push(g));
            assert forall|a: int, b: int|
                #![trigger self@[a], self@[b]]
                0 <= a < b < self@.len() implies self@[a].token != self@[b].token by {
                let d: int = if kept.len() >= TOKEN_CAP {
                    kept.len() - TOKEN_CAP + 1
                } else {
                    0
                };
                assert(with_room(kept)[a] == kept[a + d]);
                if b < with_room(kept).len() {
                    assert(with_room(kept)[b] == kept[b + d]);
                } else {
                    start.filter(p).lemma_filter_pred(q, a + d);
                }
            }
        }
        token
    }

    /// Uses a token up. What it stands for comes back, unless it is unknown or has expired.
    pub fn consume(&mut self, token: &str, now_nanos: u64) -> (r: Option<
        (StreamVerb, StreamParams),
    >)
        requires
            old(self).wf(),
        ensures
            final(self).wf(),
            final(self)@ == others(old(self)@, token@),
            r == granted(old(self)@, token@, now_nanos),
    {
        let ghost start = self@;
        let ghost q = |g: GrantView| g.token != token@;
        let mut i: usize = 0;
        while i < self.grants.len()
            invariant
                i <= self.grants@.len(),
                start == self@,
                start == old(self)@,
                old(self).wf(),
                forall|j: int| 0 <= j < i ==> (#[trigger] start[j]).token != token@,
            decreases self.grants@.len() - i,
        {
            assert(start[i as int] == self.grants@[i as int]@);
            if same_text(self.grants[i].token.as_str(), token) {
                let grant = self.grants.remove(i);
                proof {
                    assert(self@ =~= start.remove(i as int));
                    lemma_others_remove(start, token@, i as int);
                    assert(start[i as int].token == token@);
                    assert forall|a: int, b: int|
                        #![trigger self@[a], self@[b]]
                        0 <= a < b < self@.len() implies self@[a].token != self@[b].token by {
                        let a0: int = if a < i {
                            a
                        } else {
                            a + 1
                        };
                        let b0: int = if b < i {
                            b
                        } else {
                            b + 1
                        };
                        assert(start[a0].token != start[b0].token);
                    }
                }
                if grant.is_live(now_nanos) {
                    return Some((grant.verb, grant.params));
                }
                return None;
            }
            i = i + 1;
        }
        proof {
            lemma_others_none(start, token@);
        }
        None
    }
}

impl Default for TokenRegistry {
    fn default() -> (r: Self)
        ensures
            r.wf(),
            r@ == Seq::<GrantView>::empty(),
    {
        TokenRegistry::new()
    }
}

/// What the token stands for among the grants at `now_nanos`, if anything.
pub open spec fn granted(grants: Seq<GrantView>, token: Seq<char>, now_nanos: u64) -> Option<
    (StreamVerb, StreamParams),
> {
    if exists|i: int|
        0 <= i < grants.len() && (#[trigger] grants[i]).token == token && grants[i].live(
            now_nanos,
        ) {
        let i = choose|i: int|
            0 <= i < grants.len() && (#[trigger] grants[i]).token == token && grants[i].live(
                now_nanos,
            );
        Some((grants[i].verb, grants[i].params))
    } else {
        None
    }
}

/// Where only the grant in place `i` has the token, the others are those around it.
proof fn lemma_others_remove(grants: Seq<GrantView>, token: Seq<char>, i: int)
    requires
        0 <= i < grants.len(),
        grants[i].token == token,
        forall|j: int| 0 <= j < grants.len() && j != i ==> (#[trigger] grants[j]).token != token,
    ensures
        others(grants, token) == grants.remove(i),
{
    let q = |g: GrantView| g.token != token;
    let a = grants.take(i);
    let b = grants.skip(i + 1);
    assert(grants =~= a.push(grants[i]) + b);
    Seq::filter_distributes_over_add(a.push(grants[i]), b, q);
    crate::seqs::lemma_filter_push(a, q, grants[i]);
    lemma_others_none(a, token);
    lemma_others_none(b, token);
    assert(grants.remove(i) =~= a + b);
}

/// Where no grant has the token, the others are all.
proof fn lemma_others_none(grants: Seq<GrantView>, token: Seq<char>)
    requires
        forall|j: int| 0 <= j < grants.len() ==> (#[trigger] grants[j]).token != token,
    ensures
        others(grants, token) == grants,
    decreases grants.len(),
{
    reveal(Seq::filter);
    if grants.len() > 0 {
        lemma_others_none(grants.drop_last(), token);
        assert(grants =~= grants.drop_last().push(grants.last()));
    }
}

/// A token gives back what it was minted for, to whoever uses it within its minute.
pub proof fn law_consume_gives_what_was_minted(
    before: Seq<GrantView>,
    minted: GrantView,
    now_nanos: u64,
)
    requires
        minted.live(now_nanos),
    ensures
        granted(
            with_room(others(unexpired(before, minted.minted_nanos), minted.token)).push(minted),
            minted.token,
            now_nanos,
        ) == Some((minted.verb, minted.params)),
{
    let kept = others(unexpired(before, minted.minted_nanos), minted.token);
    let after = with_room(kept).push(minted);
    assert(after[after.len() - 1] == minted);
    let q = |g: GrantView| g.token != minted.token;
    assert forall|i: int| 0 <= i < after.len() - 1 implies (#[trigger] after[i]).token
        != minted.token by {
        let d: int = if kept.len() >= TOKEN_CAP {
            kept.len() - TOKEN_CAP + 1
        } else {
            0
        };
        assert(after[i] == kept[i + d]);
        unexpired(before, minted.minted_nanos).lemma_filter_pred(q, i + d);
    }
}

/// A token that was used is unknown from then on.
pub proof fn law_tokens_are_single_use(
    before: Seq<GrantView>,
    token: Seq<char>,
    now_nanos: u64,
)
    ensures
        granted(others(before, token), token, now_nanos) is None,
{
    let q = |g: GrantView| g.token != token;
    assert forall|i: int| 0 <= i < others(before, token).len() implies (#[trigger] others(
        before,
        token,
    )[i]).token != token by {
        before.lemma_filter_pred(q, i);
    }
}

/// A minute after the last token was minted, none can be used.
pub proof fn law_tokens_expire(grants: Seq<GrantView>, token: Seq<char>, now_nanos: u64)
    requires
        forall|i: int|
            0 <= i < grants.len() ==> (#[trigger] grants[i]).minted_nanos + TOKEN_TTL_NANOS
                <= now_nanos,
    ensures
        granted(grants, token, now_nanos) is None,
{
}

/// Tokens are eight characters long, and different random bytes make different tokens.
pub proof fn law_tokens_are_distinct(a: Seq<u8>, b: Seq<u8>)
    requires
        a.len() == 6,
        b.len() == 6,
    ensures
        token_text(a).len() == 8,
        token_text(a) == token_text(b) ==> a == b,
{
    if token_text(a) == token_text(b) {
        let a0 = three_bytes(a[0], a[1], a[2]);
        let b0 = three_bytes(b[0], b[1], b[2]);
        let a1 = three_bytes(a[3], a[4], a[5]);
        let b1 = three_bytes(b[3], b[4], b[5]);
        assert(base64url_group(a0) =~= token_text(a).take(4));
        assert(base64url_group(b0) =~= token_text(b).take(4));
        assert(base64url_group(a1) =~= token_text(a).skip(4));
        assert(base64url_group(b1) =~= token_text(b).skip(4));
        lemma_group_distinct(a0, b0);
        lemma_group_distinct(a1, b1);
        lemma_bytes_distinct(a[0], a[1], a[2], b[0], b[1], b[2]);
        lemma_bytes_distinct(a[3], a[4], a[5], b[3], b[4], b[5]);
        assert(a =~= b);
    }
}

/// Different bytes make different numbers.
proof fn lemma_bytes_distinct(a: u8, b: u8, c: u8, x: u8, y: u8, z: u8)
    requires
        three_bytes(a, b, c) == three_bytes(x, y, z),
    ensures
        a == x,
        b == y,
        c == z,
{
}

/// Different numbers have different base64 groups.
proof fn lemma_group_distinct(m: nat, n: nat)
    requires
        m < 0x100_0000,
        n < 0x100_0000,
        base64url_group(m) == base64url_group(n),
    ensures
        m == n,
{
    let x = base64url_group(m);
    let y = base64url_group(n);
    assert(x[0] == y[0] && x[1] == y[1] && x[2] == y[2] && x[3] == y[3]);
    lemma_digit_distinct(m / 262144, n / 262144);
    lemma_digit_distinct(m / 4096 % 64, n / 4096 % 64);
    lemma_digit_distinct(m / 64 % 64, n / 64 % 64);
    lemma_digit_distinct(m % 64, n % 64);
    lemma_of_digits(m);
    lemma_of_digits(n);
}

/// A number is made up of its digits.
proof fn lemma_of_digits(n: nat)
    ensures
        n == n / 262144 * 262144 + n / 4096 % 64 * 4096 + n / 64 % 64 * 64 + n % 64,
{
    let a: nat = n / 64;
    let b: nat = a / 64;
    let c: nat = b / 64;
    lemma_quotients(n);
    assert(n == a * 64 + n % 64);
    assert(a == b * 64 + a % 64);
    assert(b == c * 64 + b % 64);
}

proof fn lemma_quotients(n: nat)
    ensures
        n / 64 / 64 == n / 4096,
        n / 64 / 64 / 64 == n / 262144,
{
}

/// Different values have different base64 digits.
proof fn lemma_digit_distinct(v: nat, w: nat)
    requires
        v < 64,
        w < 64,
        base64url_digit(v) == base64url_digit(w),
    ensures
        v == w,
{
}

/// What is filtered out of grants with different tokens has different tokens.
proof fn lemma_filter_unique(s: Seq<GrantView>, p: spec_fn(GrantView) -> bool)
    requires
        forall|i: int, j: int|
            #![trigger s[i], s[j]]
            0 <= i < j < s.len() ==> s[i].token != s[j].token,
    ensures
        forall|i: int, j: int|
            #![trigger s.filter(p)[i], s.filter(p)[j]]
            0 <= i < j < s.filter(p).len() ==> s.filter(p)[i].token != s.filter(p)[j].token,
    decreases s.len(),
{
    reveal(Seq::filter);
    if s.len() > 0 {
        let r = s.drop_last();
        lemma_filter_unique(r, p);
        assert(s =~= r.push(s.last()));
        crate::seqs::lemma_filter_push(r, p, s.last());
        assert forall|i: int| 0 <= i < r.filter(p).len() implies #[trigger] r.filter(p)[i].token
            != s.last().token by {
            assert(r.filter(p).contains(r.filter(p)[i]));
            r.lemma_filter_contains_rev(p, r.filter(p)[i]);
            let j = r.index_of(r.filter(p)[i]);
            assert(s[j] == r[j]);
            assert(s[j].token != s[s.len() - 1].token);
        }
    }
}

/// What is done with a registry.
pub enum TokenUse {
    /// A token is minted.
    Minted(GrantView),
    /// A token is used, or tried.
    Consumed { token: Seq<char>, now_nanos: u64 },
}

impl TokenUse {
    /// When it is done.
    pub open spec fn at(self) -> u64 {
        match self {
            TokenUse::Minted(g) => g.minted_nanos,
            TokenUse::Consumed { now_nanos, .. } => now_nanos,
        }
    }

    /// The token that it is about.
    pub open spec fn token(self) -> Seq<char> {
        match self {
            TokenUse::Minted(g) => g.token,
            TokenUse::Consumed { token, .. } => token,
        }
    }
}

/// The grants that minting has to find room beside.
pub open spec fn kept_beside(grants: Seq<GrantView>, minted: GrantView) -> Seq<GrantView> {
    others(unexpired(grants, minted.minted_nanos), minted.token)
}

/// The grants after one use.
pub open spec fn after_use(grants: Seq<GrantView>, u: TokenUse) -> Seq<GrantView> {
    match u {
        TokenUse::Minted(g) => with_room(kept_beside(grants, g)).push(g),
        TokenUse::Consumed { token, .. } => others(grants, token),
    }
}

/// The grants of a registry that was new, after all of the uses.
pub open spec fn after_uses(uses: Seq<TokenUse>) -> Seq<GrantView>
    decreases uses.len(),
{
    if uses.len() == 0 {
        Seq::empty()
    } else {
        after_use(after_uses(uses.drop_last()), uses.last())
    }
}

/// Whether no token ever had to give way: there was always room for one more.
pub open spec fn never_full(uses: Seq<TokenUse>) -> bool
    decreases uses.len(),
{
    uses.len() > 0 ==> never_full(uses.drop_last()) && (uses.last() matches TokenUse::Minted(g)
        ==> kept_beside(after_uses(uses.drop_last()), g).len() < TOKEN_CAP)
}

/// Whether the uses came one after the other, and none after `now_nanos`.
pub open spec fn in_time(uses: Seq<TokenUse>, now_nanos: u64) -> bool {
    &&& forall|i: int, j: int|
        #![trigger uses[i], uses[j]]
        0 <= i < j < uses.len() ==> uses[i].at() <= uses[j].at()
    &&& forall|i: int| 0 <= i < uses.len() ==> (#[trigger] uses[i]).at() <= now_nanos
}

/// Whether the token was minted with the grant and has not been minted again or used since.
pub open spec fn stands(uses: Seq<TokenUse>, token: Seq<char>, g: GrantView) -> bool {
    exists|i: int| stands_at(uses, token, g, i)
}

/// Whether the token was minted with the grant in place `i`, and nothing later is about it.
pub open spec fn stands_at(uses: Seq<TokenUse>, token: Seq<char>, g: GrantView, i: int) -> bool {
    &&& 0 <= i < uses.len()
    &&& uses[i] == TokenUse::Minted(g)
    &&& g.token == token
    &&& forall|j: int| i < j < uses.len() ==> (#[trigger] uses[j]).token() != token
}

/// Minting one token, or using it, takes no other live token away, as long as there is room.
pub proof fn law_other_tokens_stay(grants: Seq<GrantView>, g: GrantView, u: TokenUse)
    requires
        grants.contains(g),
        u.token() != g.token,
        g.live(u.at()),
        u matches TokenUse::Minted(m) ==> kept_beside(grants, m).len() < TOKEN_CAP,
    ensures
        after_use(grants, u).contains(g),
{
    match u {
        TokenUse::Minted(m) => {
            let live = |x: GrantView| x.live(m.minted_nanos);
            let other = |x: GrantView| x.token != m.token;
            lemma_filter_keeps(grants, live, g);
            lemma_filter_keeps(grants.filter(live), other, g);
            let kept = kept_beside(grants, m);
            let i = kept.index_of(g);
            assert(kept.push(m)[i] == g);
        },
        TokenUse::Consumed { token, .. } => {
            lemma_filter_keeps(grants, |x: GrantView| x.token != token, g);
        },
    }
}

proof fn lemma_filter_keeps(s: Seq<GrantView>, p: spec_fn(GrantView) -> bool, g: GrantView)
    ensures
        s.filter(p).contains(g) <==> s.contains(g) && p(g),
    decreases s.len(),
{
    reveal(Seq::filter);
    if s.len() > 0 {
        let r = s.drop_last();
        lemma_filter_keeps(r, p, g);
        crate::seqs::lemma_filter_push(r, p, s.last());
        assert(s =~= r.push(s.last()));
        if r.contains(g) {
            assert(s[r.index_of(g)] == g);
        }
        if s.contains(g) && g != s.last() {
            assert(r[s.index_of(g)] == g);
        }
        if r.filter(p).contains(g) {
            assert(s.filter(p)[r.filter(p).index_of(g)] == g);
        }
        if s.filter(p).contains(g) && g != s.last() {
            assert(r.filter(p)[s.filter(p).index_of(g)] == g);
        }
        assert(s[s.len() - 1] == s.last());
        if p(s.last()) {
            assert(s.filter(p)[r.filter(p).len() as int] == s.last());
        }
    }
}

/// Over any history in which no token had to give way, a token gives back what it was last minted
/// for if and only if it has not been used since and its minute is not over. Everything else is
/// refused: a token that was never minted, that was used already, or that has expired.
pub proof fn law_token_is_good_until_used_or_expired(
    uses: Seq<TokenUse>,
    token: Seq<char>,
    now_nanos: u64,
)
    requires
        never_full(uses),
        in_time(uses, now_nanos),
    ensures
        forall|g: GrantView|
            #![trigger stands(uses, token, g)]
            stands(uses, token, g) && g.live(now_nanos) ==> granted(
                after_uses(uses),
                token,
                now_nanos,
            ) == Some((g.verb, g.params)),
        granted(after_uses(uses), token, now_nanos) is Some ==> exists|g: GrantView|
            #![trigger stands(uses, token, g)]
            stands(uses, token, g) && g.live(now_nanos),
{
    let grants = after_uses(uses);
    lemma_grants_stand(uses);
    assert forall|g: GrantView|
        #![trigger stands(uses, token, g)]
        stands(uses, token, g) && g.live(now_nanos) implies granted(grants, token, now_nanos)
        == Some((g.verb, g.params)) by {
        lemma_standing_is_kept(uses, token, g, now_nanos);
        let i = grants.index_of(g);
        assert(grants[i].token == token && grants[i].live(now_nanos));
        let k = choose|k: int|
            0 <= k < grants.len() && (#[trigger] grants[k]).token == token && grants[k].live(
                now_nanos,
            );
        assert(stands(uses, token, grants[k]));
        lemma_stands_once(uses, token, g, grants[k]);
    }
    if granted(grants, token, now_nanos) is Some {
        let k = choose|k: int|
            0 <= k < grants.len() && (#[trigger] grants[k]).token == token && grants[k].live(
                now_nanos,
            );
        assert(stands(uses, token, grants[k]));
    }
}

/// Whatever was minted before, a token is refused once it was used, until it is minted again.
pub proof fn law_used_token_is_refused(
    before: Seq<TokenUse>,
    token: Seq<char>,
    used_nanos: u64,
    since: Seq<TokenUse>,
    now_nanos: u64,
)
    requires
        forall|j: int|
            0 <= j < since.len() ==> !((#[trigger] since[j]) is Minted && since[j].token() == token),
    ensures
        granted(
            after_uses(before.push(TokenUse::Consumed { token, now_nanos: used_nanos }) + since),
            token,
            now_nanos,
        ) is None,
    decreases since.len(),
{
    let used = before.push(TokenUse::Consumed { token, now_nanos: used_nanos });
    lemma_none_with(before, token, used_nanos, since);
    let grants = after_uses(used + since);
    assert forall|i: int| 0 <= i < grants.len() implies (#[trigger] grants[i]).token != token by {}
}

proof fn lemma_none_with(
    before: Seq<TokenUse>,
    token: Seq<char>,
    used_nanos: u64,
    since: Seq<TokenUse>,
)
    requires
        forall|j: int|
            0 <= j < since.len() ==> !((#[trigger] since[j]) is Minted && since[j].token() == token),
    ensures
        ({
            let grants = after_uses(
                before.push(TokenUse::Consumed { token, now_nanos: used_nanos }) + since,
            );
            forall|i: int| 0 <= i < grants.len() ==> (#[trigger] grants[i]).token != token
        }),
    decreases since.len(),
{
    let used = before.push(TokenUse::Consumed { token, now_nanos: used_nanos });
    if since.len() == 0 {
        assert(used + since =~= used);
        assert(used.drop_last() =~= before);
        let q = |g: GrantView| g.token != token;
        assert forall|i: int| 0 <= i < after_uses(used).len() implies (#[trigger] after_uses(
            used,
        )[i]).token != token by {
            after_uses(before).lemma_filter_pred(q, i);
        }
    } else {
        let rest = since.drop_last();
        assert((used + since).drop_last() =~= used + rest);
        assert forall|j: int| 0 <= j < rest.len() implies !((#[trigger] rest[j]) is Minted
            && rest[j].token() == token) by {
            assert(rest[j] == since[j]);
        }
        lemma_none_with(before, token, used_nanos, rest);
        let grants = after_uses(used + rest);
        let u = since[since.len() - 1];
        assert((used + since).last() == u);
        assert forall|i: int| 0 <= i < after_use(grants, u).len() implies (#[trigger] after_use(
            grants,
            u,
        )[i]).token != token by {
            let x = after_use(grants, u)[i];
            lemma_after_use_adds_only(grants, u, i);
            if grants.contains(x) {
                let k = grants.index_of(x);
                assert(grants[k].token != token);
            }
        }
    }
}

/// What is there after a use was there before, and is about another token, or was minted.
proof fn lemma_after_use_adds_only(grants: Seq<GrantView>, u: TokenUse, i: int)
    requires
        0 <= i < after_use(grants, u).len(),
    ensures
        u == TokenUse::Minted(after_use(grants, u)[i]) || grants.contains(after_use(grants, u)[i])
            && after_use(grants, u)[i].token != u.token(),
{
    let x = after_use(grants, u)[i];
    match u {
        TokenUse::Minted(m) => {
            let live = |x: GrantView| x.live(m.minted_nanos);
            let other = |x: GrantView| x.token != m.token;
            let kept = kept_beside(grants, m);
            if i < with_room(kept).len() {
                let d: int = if kept.len() >= TOKEN_CAP {
                    kept.len() - TOKEN_CAP + 1
                } else {
                    0
                };
                assert(x == kept[i + d]);
                assert(kept.contains(x));
                lemma_filter_keeps(grants.filter(live), other, x);
                lemma_filter_keeps(grants, live, x);
            }
        },
        TokenUse::Consumed { token, .. } => {
            assert(others(grants, token).contains(x));
            lemma_filter_keeps(grants, |x: GrantView| x.token != token, x);
        },
    }
}

/// Every grant held stands.
proof fn lemma_grants_stand(uses: Seq<TokenUse>)
    ensures
        forall|i: int|
            0 <= i < after_uses(uses).len() ==> stands(
                uses,
                (#[trigger] after_uses(uses)[i]).token,
                after_uses(uses)[i],
            ),
    decreases uses.len(),
{
    if uses.len() > 0 {
        let r = uses.drop_last();
        let u = uses.last();
        lemma_grants_stand(r);
        assert forall|i: int| 0 <= i < after_uses(uses).len() implies stands(
            uses,
            (#[trigger] after_uses(uses)[i]).token,
            after_uses(uses)[i],
        ) by {
            let x = after_uses(uses)[i];
            lemma_after_use_adds_only(after_uses(r), u, i);
            if u == TokenUse::Minted(x) {
                assert(stands_at(uses, x.token, x, uses.len() - 1));
            } else {
                let k = after_uses(r).index_of(x);
                assert(stands(r, after_uses(r)[k].token, after_uses(r)[k]));
                let n = choose|n: int| stands_at(r, x.token, x, n);
                assert forall|j: int| n < j < uses.len() implies (#[trigger] uses[j]).token()
                    != x.token by {
                    if j < r.len() {
                        assert(r[j] == uses[j]);
                    }
                }
                assert(uses[n] == r[n]);
                assert(stands_at(uses, x.token, x, n));
            }
        }
    }
}

/// A grant that stands and is live is held.
proof fn lemma_standing_is_kept(
    uses: Seq<TokenUse>,
    token: Seq<char>,
    g: GrantView,
    now_nanos: u64,
)
    requires
        never_full(uses),
        in_time(uses, now_nanos),
        stands(uses, token, g),
        g.live(now_nanos),
    ensures
        after_uses(uses).contains(g),
    decreases uses.len(),
{
    let n = choose|n: int| stands_at(uses, token, g, n);
    assert(stands_at(uses, token, g, n));
    let r = uses.drop_last();
    let u = uses.last();
    if n == uses.len() - 1 {
        let kept = with_room(kept_beside(after_uses(r), g));
        assert(after_uses(uses)[kept.len() as int] == g);
    } else {
        assert(uses[uses.len() - 1].token() != token);
        assert(r[n] == uses[n]);
        assert forall|j: int| n < j < r.len() implies (#[trigger] r[j]).token() != token by {
            assert(r[j] == uses[j]);
        }
        assert(stands_at(r, token, g, n));
        assert(in_time(r, now_nanos)) by {
            assert forall|i: int, j: int|
                #![trigger r[i], r[j]]
                0 <= i < j < r.len() implies r[i].at() <= r[j].at() by {
                assert(r[i] == uses[i] && r[j] == uses[j]);
            }
            assert forall|i: int| 0 <= i < r.len() implies (#[trigger] r[i]).at() <= now_nanos by {
                assert(r[i] == uses[i]);
            }
        }
        lemma_standing_is_kept(r, token, g, now_nanos);
        assert(uses[uses.len() - 1].at() <= now_nanos);
        law_other_tokens_stay(after_uses(r), g, u);
    }
}

/// Of one token only one grant stands.
proof fn lemma_stands_once(uses: Seq<TokenUse>, token: Seq<char>, a: GrantView, b: GrantView)
    requires
        stands(uses, token, a),
        stands(uses, token, b),
    ensures
        a == b,
{
    let i = choose|i: int| stands_at(uses, token, a, i);
    let j = choose|j: int| stands_at(uses, token, b, j);
    assert(stands_at(uses, token, a, i) && stands_at(uses, token, b, j));
    assert(uses[i].token() == token && uses[j].token() == token);
}

/// The value of a digit to the base sixty-four, as addresses may hold them.
pub open spec fn base64url_value(c: char) -> int {
    if 'A' <= c <= 'Z' {
        c as int - 'A' as int
    } else if 'a' <= c <= 'z' {
        c as int - 'a' as int + 26
    } else if '0' <= c <= '9' {
        c as int - '0' as int + 52
    } else if c == '-' {
        62
    } else {
        63
    }
}

/// Whether an address may hold the character as it is.
pub open spec fn is_address_char(c: char) -> bool {
    'A' <= c <= 'Z' || 'a' <= c <= 'z' || '0' <= c <= '9' || c == '-' || c == '_'
}

proof fn lemma_digit_value(v: nat)
    requires
        v < 64,
    ensures
        is_address_char(base64url_digit(v)),
        base64url_value(base64url_digit(v)) == v,
{
}

/// A token is eight characters that an address may hold; four of them read back as three of its bytes.
pub proof fn law_token_reads_back(random: Seq<u8>, i: int)
    requires
        random.len() == 6,
    ensures
        ({
            let t = token_text(random);
            let v = |j: int| base64url_value(t[j]);
            &&& t.len() == 8
            &&& 0 <= i < 8 ==> is_address_char(t[i])
            &&& v(0) * 262144 + v(1) * 4096 + v(2) * 64 + v(3) == random[0] * 65536 + random[1]
                * 256 + random[2]
            &&& v(4) * 262144 + v(5) * 4096 + v(6) * 64 + v(7) == random[3] * 65536 + random[4]
                * 256 + random[5]
        }),
{
    let a = three_bytes(random[0], random[1], random[2]);
    let b = three_bytes(random[3], random[4], random[5]);
    lemma_group_value(a);
    lemma_group_value(b);
    let t = token_text(random);
    let g = base64url_group(a);
    let h = base64url_group(b);
    assert(t[0] == g[0] && t[1] == g[1] && t[2] == g[2] && t[3] == g[3]);
    assert(t[4] == h[0] && t[5] == h[1] && t[6] == h[2] && t[7] == h[3]);
}

proof fn lemma_group_value(n: nat)
    requires
        n < 16777216,
    ensures
        ({
            let g = base64url_group(n);
            let v = |j: int| base64url_value(g[j]);
            &&& v(0) * 262144 + v(1) * 4096 + v(2) * 64 + v(3) == n
            &&& is_address_char(g[0]) && is_address_char(g[1]) && is_address_char(g[2])
                && is_address_char(g[3])
        }),
{
    lemma_digit_value(n / 262144);
    lemma_digit_value(n / 4096 % 64);
    lemma_digit_value(n / 64 % 64);
    lemma_digit_value(n % 64);
    lemma_of_digits(n);
}

/// A token is good for a minute after it was minted, and not a moment longer.
pub proof fn law_tokens_last_a_minute(g: GrantView, now_nanos: u64)
    ensures
        g.live(now_nanos) <==> now_nanos - g.minted_nanos < 60 * 1_000_000_000,
{
}

/// Where there are a thousand tokens, the oldest make room for the next, and no more of them than
/// have to; where there are fewer, all stay.
pub proof fn law_oldest_tokens_make_room(grants: Seq<GrantView>)
    ensures
        with_room(grants).is_suffix_of(grants),
        with_room(grants).len() < 1000,
        grants.len() < 1000 ==> with_room(grants) == grants,
        grants.len() >= 1000 ==> with_room(grants).len() == 999,
{
    let kept = with_room(grants);
    assert(kept =~= grants.subrange(grants.len() - kept.len(), grants.len() as int));
}

/// What a token was minted for comes back as it was: its verb and its parameters, and not those of
/// any other token.
pub proof fn law_granted_is_one_of_the_grants(
    grants: Seq<GrantView>,
    token: Seq<char>,
    now_nanos: u64,
)
    ensures
        match granted(grants, token, now_nanos) {
            Some((verb, params)) => exists|i: int|
                0 <= i < grants.len() && (#[trigger] grants[i]).token == token && grants[i].verb
                    == verb && grants[i].params == params && now_nanos < grants[i].minted_nanos
                    + 60_000_000_000,
            None => forall|i: int|
                0 <= i < grants.len() && (#[trigger] grants[i]).token == token ==> now_nanos
                    >= grants[i].minted_nanos + 60_000_000_000,
        },
{
    if granted(grants, token, now_nanos) is None {
        assert forall|i: int| 0 <= i < grants.len() && (#[trigger] grants[i]).token
            == token implies now_nanos >= grants[i].minted_nanos + 60_000_000_000 by {
            assert(!grants[i].live(now_nanos));
        }
    }
}

/// A token that has expired is forgotten when another is minted, and so is one with the same text; no
/// other is, while there is room.
pub proof fn law_minting_forgets_the_expired(before: Seq<GrantView>, minted: GrantView, g: GrantView)
    requires
        g != minted,
        kept_beside(before, minted).len() < 1000,
    ensures
        after_use(before, TokenUse::Minted(minted)).contains(g) <==> before.contains(g) && g.token
            != minted.token && minted.minted_nanos < g.minted_nanos + 60_000_000_000,
        after_use(before, TokenUse::Minted(minted)).last() == minted,
{
    let live = |x: GrantView| x.live(minted.minted_nanos);
    let other = |x: GrantView| x.token != minted.token;
    let alive = unexpired(before, minted.minted_nanos);
    let kept = kept_beside(before, minted);
    let after = after_use(before, TokenUse::Minted(minted));
    assert(after =~= kept.push(minted));
    if after.contains(g) {
        let i = after.index_of(g);
        assert(kept[i] == g);
        assert(kept.contains(g));
        alive.lemma_filter_contains_rev(other, g);
        before.lemma_filter_contains_rev(live, g);
        alive.lemma_filter_pred(other, i);
        let j = alive.index_of(g);
        before.lemma_filter_pred(live, j);
    }
    if before.contains(g) && g.token != minted.token && live(g) {
        let i = before.index_of(g);
        before.lemma_filter_contains(live, i);
        assert(alive.contains(g));
        let j = alive.index_of(g);
        alive.lemma_filter_contains(other, j);
        assert(kept.contains(g));
        let n = kept.index_of(g);
        assert(after[n] == g);
    }
}

/// A token that is used, or tried, is forgotten; no other is.
pub proof fn law_using_forgets_only_the_used(
    before: Seq<GrantView>,
    token: Seq<char>,
    now_nanos: u64,
    g: GrantView,
)
    ensures
        after_use(before, TokenUse::Consumed { token, now_nanos }).contains(g) <==> before.contains(g)
            && g.token != token,
{
    let other = |x: GrantView| x.token != token;
    let after = others(before, token);
    if after.contains(g) {
        let i = after.index_of(g);
        before.lemma_filter_contains_rev(other, g);
        before.lemma_filter_pred(other, i);
    }
    if before.contains(g) && g.token != token {
        let i = before.index_of(g);
        before.lemma_filter_contains(other, i);
    }
}

} // verus!
