use vstd::prelude::*;
use vstd::string::*;

use crate::text::{
    chars_equal, decimal, decimal_digits, decimal_parses_back, is_digit, parse_u64,
    parsed_u64, push_decimal,
};

verus! {

pub const TOPIC_PREFIX: &'static str = "leanconsensus";

pub const ENCODING_POSTFIX: &'static str = "ssz_snappy";

pub const LEAN_BLOCK_TOPIC: &'static str = "block";

pub const LEAN_ATTESTATION_SUBNET_PREFIX: &'static str = "attestation_";

pub const LEAN_AGGREGATION_TOPIC: &'static str = "aggregation";

/// What a lean gossip topic carries.
#[derive(Clone, Copy, Debug, Hash, PartialEq, Eq, Structural)]
pub enum LeanGossipTopicKind {
    Block,
    AttestationSubnet(u64),
    AggregatedAttestation,
}

/// A lean gossip topic: a fork and a kind.
#[derive(Clone, Debug, Hash, PartialEq, Eq)]
pub struct LeanGossipTopic {
    pub fork: String,
    pub kind: LeanGossipTopicKind,
}

/// Errors of the gossip layer.
#[derive(Debug)]
pub enum GossipsubError {
    InvalidTopic(String),
}

impl GossipsubError {
    /// The error's message.
    pub fn to_string(&self) -> (r: String)
        ensures
            match self {
                GossipsubError::InvalidTopic(m) => r@ == "Invalid topic: "@ + m@,
            },
    {
        match self {
            GossipsubError::InvalidTopic(m) => {
                let mut s = String::from_str("Invalid topic: ");
                s.append(m.as_str());
                s
            },
        }
    }
}

/// The topic name of a kind.
pub open spec fn kind_name(kind: LeanGossipTopicKind) -> Seq<char> {
    match kind {
        LeanGossipTopicKind::Block => LEAN_BLOCK_TOPIC@,
        LeanGossipTopicKind::AttestationSubnet(id) => LEAN_ATTESTATION_SUBNET_PREFIX@ + decimal(
            id as nat,
        ),
        LeanGossipTopicKind::AggregatedAttestation => LEAN_AGGREGATION_TOPIC@,
    }
}

/// The topic string `/leanconsensus/{fork}/{kind}/ssz_snappy`.
pub open spec fn topic_string(fork: Seq<char>, kind: LeanGossipTopicKind) -> Seq<char> {
    "/"@ + TOPIC_PREFIX@ + "/"@ + fork + "/"@ + kind_name(kind) + "/"@ + ENCODING_POSTFIX@
}

impl LeanGossipTopicKind {
    /// The topic name of this kind.
    pub fn to_string(&self) -> (r: String)
        ensures
            r@ == kind_name(*self),
    {
        match self {
            LeanGossipTopicKind::Block => String::from_str(LEAN_BLOCK_TOPIC),
            LeanGossipTopicKind::AttestationSubnet(id) => {
                let mut s = String::from_str(LEAN_ATTESTATION_SUBNET_PREFIX);
                push_decimal(&mut s, *id);
                s
            },
            LeanGossipTopicKind::AggregatedAttestation => String::from_str(LEAN_AGGREGATION_TOPIC),
        }
    }
}

impl LeanGossipTopic {
    /// The topic string.
    pub fn to_string(&self) -> (r: String)
        ensures
            r@ == topic_string(self.fork@, self.kind),
    {
        let mut s = String::from_str("/");
        s.append(TOPIC_PREFIX);
        s.append("/");
        s.append(self.fork.as_str());
        s.append("/");
        let name = self.kind.to_string();
        s.append(name.as_str());
        s.append("/");
        s.append(ENCODING_POSTFIX);
        assert(s@ =~= topic_string(self.fork@, self.kind));
        s
    }
}

// ---------------------------------------------------------------------------
// Parsing topic strings
// ---------------------------------------------------------------------------

/// The number of `/` characters that `s` starts with.
pub open spec fn leading_slashes(s: Seq<char>) -> nat
    decreases s.len(),
{
    if s.len() > 0 && s[0] == '/' {
        1 + leading_slashes(s.drop_first())
    } else {
        0
    }
}

/// Positions of the `/` characters among the first `k` characters of `t`.
pub open spec fn slash_positions(t: Seq<char>, k: int) -> Seq<int>
    decreases k,
{
    if k <= 0 {
        Seq::empty()
    } else if t[k - 1] == '/' {
        slash_positions(t, k - 1).push(k - 1)
    } else {
        slash_positions(t, k - 1)
    }
}

/// Why a topic string was refused.
pub enum TopicFault {
    /// Not four `/`-separated parts with the lean prefix and the encoding postfix.
    Format,
    /// An attestation topic whose subnet id is not a `u64`.
    SubnetId(Seq<char>),
    /// A topic name that no kind has.
    Name(Seq<char>),
}

/// The result of parsing `s` as a lean topic string: leading `/` are dropped, the rest is split
/// at `/` into exactly four parts: the prefix `leanconsensus`, the fork, the topic name and
/// the postfix `ssz_snappy`; the name is `block`, `aggregation` or `attestation_` followed by
/// a subnet id.
pub open spec fn parse_topic(s: Seq<char>) -> Result<(Seq<char>, LeanGossipTopicKind), TopicFault> {
    let t = s.skip(leading_slashes(s) as int);
    let p = slash_positions(t, t.len() as int);
    if p.len() != 3 {
        Err(TopicFault::Format)
    } else {
        let prefix = t.subrange(0, p[0]);
        let fork = t.subrange(p[0] + 1, p[1]);
        let name = t.subrange(p[1] + 1, p[2]);
        let postfix = t.subrange(p[2] + 1, t.len() as int);
        if prefix != TOPIC_PREFIX@ || postfix != ENCODING_POSTFIX@ {
            Err(TopicFault::Format)
        } else if name == LEAN_BLOCK_TOPIC@ {
            Ok((fork, LeanGossipTopicKind::Block))
        } else if name == LEAN_AGGREGATION_TOPIC@ {
            Ok((fork, LeanGossipTopicKind::AggregatedAttestation))
        } else if name.len() >= 12 && name.take(12) == LEAN_ATTESTATION_SUBNET_PREFIX@ {
            match parsed_u64(name.skip(12)) {
                Some(id) => Ok((fork, LeanGossipTopicKind::AttestationSubnet(id))),
                None => Err(TopicFault::SubnetId(name.skip(12))),
            }
        } else {
            Err(TopicFault::Name(name))
        }
    }
}

/// The message of the error for a refused topic string `s`.
pub open spec fn fault_message(s: Seq<char>, fault: TopicFault) -> Seq<char> {
    match fault {
        TopicFault::Format => "Invalid topic format: "@ + s,
        TopicFault::SubnetId(id) => "Invalid attestation subnet id: "@ + id,
        TopicFault::Name(name) => "Invalid topic: "@ + name,
    }
}

proof fn lemma_slash_positions_bounds(t: Seq<char>, k: int)
    requires
        0 <= k <= t.len(),
    ensures
        forall|j: int|
            0 <= j < slash_positions(t, k).len() ==> 0 <= #[trigger] slash_positions(t, k)[j] < k
                && t[slash_positions(t, k)[j]] == '/',
        forall|a: int, b: int|
            0 <= a < b < slash_positions(t, k).len() ==> #[trigger] slash_positions(t, k)[a]
                < #[trigger] slash_positions(t, k)[b],
    decreases k,
{
    if k > 0 {
        lemma_slash_positions_bounds(t, k - 1);
        let prev = slash_positions(t, k - 1);
        let cur = slash_positions(t, k);
        if t[k - 1] == '/' {
            assert(cur == prev.push(k - 1));
            assert forall|j: int| 0 <= j < cur.len() implies 0 <= #[trigger] cur[j] < k && t[cur[j]]
                == '/' by {
                if j < prev.len() {
                    assert(cur[j] == prev[j]);
                }
            }
            assert forall|a: int, b: int| 0 <= a < b < cur.len() implies #[trigger] cur[a]
                < #[trigger] cur[b] by {
                assert(cur[a] == prev[a]);
                if b < prev.len() {
                    assert(cur[b] == prev[b]);
                }
            }
        } else {
            assert(cur == prev);
        }
    }
}

impl LeanGossipTopic {
    /// Parses a topic string (the string of a gossipsub topic hash).
    pub fn from_topic_hash(topic: &str) -> (r: Result<LeanGossipTopic, GossipsubError>)
        ensures
            match parse_topic(topic@) {
                Ok((fork, kind)) => r matches Ok(t) && t.fork@ == fork && t.kind == kind,
                Err(fault) => r matches Err(GossipsubError::InvalidTopic(m)) && m@ == fault_message(
                    topic@,
                    fault,
                ),
            },
    {
        let ghost s = topic@;
        let n = topic.unicode_len();
        let mut start: usize = 0;
        assert(s.skip(0) =~= s);
        while start < n && topic.get_char(start) == '/'
            invariant
                start <= n,
                n == s.len(),
                s == topic@,
                leading_slashes(s) == start + leading_slashes(s.skip(start as int)),
            decreases n - start,
        {
            assert(s.skip(start as int).drop_first() =~= s.skip(start + 1));
            start = start + 1;
        }
        let ghost t = s.skip(start as int);
        assert(leading_slashes(s.skip(start as int)) == 0);
        // positions of the separators, relative to `start`
        let mut positions: Vec<usize> = Vec::new();
        let mut i: usize = start;
        while i < n
            invariant
                start <= i <= n,
                n == s.len(),
                s == topic@,
                t == s.skip(start as int),
                positions@.len() == slash_positions(t, i - start).len(),
                forall|j: int|
                    0 <= j < positions@.len() ==> #[trigger] positions@[j] as int == slash_positions(
                        t,
                        i - start,
                    )[j],
            decreases n - i,
        {
            if topic.get_char(i) == '/' {
                positions.push(i - start);
            }
            i = i + 1;
        }
        proof {
            lemma_slash_positions_bounds(t, t.len() as int);
        }
        let ghost p = slash_positions(t, t.len() as int);
        if positions.len() != 3 {
            return Err(GossipsubError::InvalidTopic(format_error(topic)));
        }
        let p0 = start + positions[0];
        let p1 = start + positions[1];
        let p2 = start + positions[2];
        assert(t.subrange(0, p[0]) =~= s.subrange(start as int, p0 as int));
        assert(t.subrange(p[0] + 1, p[1]) =~= s.subrange(p0 + 1, p1 as int));
        assert(t.subrange(p[1] + 1, p[2]) =~= s.subrange(p1 + 1, p2 as int));
        assert(t.subrange(p[2] + 1, t.len() as int) =~= s.subrange(p2 + 1, n as int));
        if !chars_equal(topic, start, p0, TOPIC_PREFIX) || !chars_equal(
            topic,
            p2 + 1,
            n,
            ENCODING_POSTFIX,
        ) {
            return Err(GossipsubError::InvalidTopic(format_error(topic)));
        }
        let fork = String::from_str(topic.substring_char(p0 + 1, p1));
        let ghost name = s.subrange(p1 + 1, p2 as int);
        if chars_equal(topic, p1 + 1, p2, LEAN_BLOCK_TOPIC) {
            return Ok(LeanGossipTopic { fork, kind: LeanGossipTopicKind::Block });
        }
        if chars_equal(topic, p1 + 1, p2, LEAN_AGGREGATION_TOPIC) {
            return Ok(LeanGossipTopic { fork, kind: LeanGossipTopicKind::AggregatedAttestation });
        }
        proof {
            reveal_strlit("attestation_");
        }
        if p2 - (p1 + 1) >= 12 && chars_equal(
            topic,
            p1 + 1,
            p1 + 13,
            LEAN_ATTESTATION_SUBNET_PREFIX,
        ) {
            assert(name.take(12) =~= s.subrange(p1 + 1, p1 + 13));
            assert(name.skip(12) =~= s.subrange(p1 + 13, p2 as int));
            match parse_u64(topic, p1 + 13, p2) {
                Some(id) => {
                    return Ok(LeanGossipTopic { fork, kind: LeanGossipTopicKind::AttestationSubnet(id) });
                },
                None => {
                    let mut m = String::from_str("Invalid attestation subnet id: ");
                    m.append(topic.substring_char(p1 + 13, p2));
                    return Err(GossipsubError::InvalidTopic(m));
                },
            }
        }
        assert(!(name.len() >= 12 && name.take(12) == LEAN_ATTESTATION_SUBNET_PREFIX@)) by {
            if name.len() >= 12 && name.take(12) == LEAN_ATTESTATION_SUBNET_PREFIX@ {
                assert(name.take(12) =~= s.subrange(p1 + 1, p1 + 13));
            }
        }
        let mut m = String::from_str("Invalid topic: ");
        m.append(topic.substring_char(p1 + 1, p2));
        Err(GossipsubError::InvalidTopic(m))
    }
}

fn format_error(topic: &str) -> (m: String)
    ensures
        m@ == "Invalid topic format: "@ + topic@,
{
    let mut m = String::from_str("Invalid topic format: ");
    m.append(topic);
    m
}

// ---------------------------------------------------------------------------
// Writing a topic and reading it back
// ---------------------------------------------------------------------------

/// Whether `s` holds no `/`.
pub open spec fn no_slash(s: Seq<char>) -> bool {
    forall|i: int| 0 <= i < s.len() ==> s[i] != '/'
}

proof fn lemma_slash_positions_prefix(x: Seq<char>, y: Seq<char>, j: int)
    requires
        0 <= j <= x.len(),
    ensures
        slash_positions(x + y, j) == slash_positions(x, j),
    decreases j,
{
    if j > 0 {
        lemma_slash_positions_prefix(x, y, j - 1);
        assert((x + y)[j - 1] == x[j - 1]);
    }
}

proof fn lemma_slash_positions_no_slash(x: Seq<char>, y: Seq<char>, k: int)
    requires
        no_slash(y),
        0 <= k <= y.len(),
    ensures
        slash_positions(x + y, x.len() + k) == slash_positions(x, x.len() as int),
    decreases k,
{
    if k > 0 {
        lemma_slash_positions_no_slash(x, y, k - 1);
        assert((x + y)[x.len() + k - 1] == y[k - 1]);
    } else {
        lemma_slash_positions_prefix(x, y, x.len() as int);
    }
}

proof fn lemma_slash_positions_slash(x: Seq<char>)
    ensures
        slash_positions(x + seq!['/'], x.len() + 1int) == slash_positions(x, x.len() as int).push(
            x.len() as int,
        ),
{
    lemma_slash_positions_prefix(x, seq!['/'], x.len() as int);
    assert((x + seq!['/'])[x.len() as int] == '/');
}

proof fn lemma_kind_name_no_slash(kind: LeanGossipTopicKind)
    ensures
        no_slash(kind_name(kind)),
        kind_name(kind).len() > 0,
{
    reveal_strlit("block");
    reveal_strlit("aggregation");
    reveal_strlit("attestation_");
    match kind {
        LeanGossipTopicKind::AttestationSubnet(id) => {
            decimal_digits(id as nat);
            let name = kind_name(kind);
            let digits = decimal(id as nat);
            assert forall|i: int| 0 <= i < name.len() implies name[i] != '/' by {
                if i >= 12 {
                    assert(name[i] == digits[i - 12]);
                    assert(is_digit(digits[i - 12]));
                }
            }
        },
        _ => {},
    }
}

/// A topic whose fork holds no `/` reads back from its string as the same fork and kind.
pub proof fn lean_topic_roundtrip(fork: Seq<char>, kind: LeanGossipTopicKind)
    requires
        no_slash(fork),
    ensures
        parse_topic(topic_string(fork, kind)) == Ok::<(Seq<char>, LeanGossipTopicKind), TopicFault>(
            (fork, kind),
        ),
{
    reveal_strlit("/");
    reveal_strlit("leanconsensus");
    reveal_strlit("ssz_snappy");
    reveal_strlit("block");
    reveal_strlit("aggregation");
    reveal_strlit("attestation_");
    let sl = seq!['/'];
    let pre = TOPIC_PREFIX@;
    let post = ENCODING_POSTFIX@;
    let name = kind_name(kind);
    lemma_kind_name_no_slash(kind);
    assert(no_slash(pre));
    assert(no_slash(post));
    let s = topic_string(fork, kind);
    assert(s =~= sl + pre + sl + fork + sl + name + sl + post);
    // One leading slash.
    assert(s.drop_first()[0] == 'l');
    assert(leading_slashes(s.drop_first()) == 0);
    assert(leading_slashes(s) == 1);
    let b = pre + sl;
    let c = b + fork;
    let d = c + sl;
    let e = d + name;
    let f = e + sl;
    let t = f + post;
    assert(s.skip(1) =~= t);
    // The three slashes of the topic.
    lemma_slash_positions_no_slash(Seq::<char>::empty(), pre, pre.len() as int);
    assert(Seq::<char>::empty() + pre =~= pre);
    assert(slash_positions(Seq::<char>::empty(), 0) =~= Seq::<int>::empty());
    lemma_slash_positions_slash(pre);
    lemma_slash_positions_no_slash(b, fork, fork.len() as int);
    lemma_slash_positions_slash(c);
    lemma_slash_positions_no_slash(d, name, name.len() as int);
    lemma_slash_positions_slash(e);
    lemma_slash_positions_no_slash(f, post, post.len() as int);
    let p = slash_positions(t, t.len() as int);
    assert(p =~= seq![pre.len() as int, c.len() as int, e.len() as int]);
    assert(t.subrange(0, p[0]) =~= pre);
    assert(t.subrange(p[0] + 1, p[1]) =~= fork);
    assert(t.subrange(p[1] + 1, p[2]) =~= name);
    assert(t.subrange(p[2] + 1, t.len() as int) =~= post);
    match kind {
        LeanGossipTopicKind::Block => {},
        LeanGossipTopicKind::AggregatedAttestation => {
            assert(name.len() != LEAN_BLOCK_TOPIC@.len());
        },
        LeanGossipTopicKind::AttestationSubnet(id) => {
            decimal_digits(id as nat);
            decimal_parses_back(id);
            assert(name[0] != LEAN_BLOCK_TOPIC@[0]);
            assert(name[1] != LEAN_AGGREGATION_TOPIC@[1]);
            assert(name.take(12) =~= LEAN_ATTESTATION_SUBNET_PREFIX@);
            assert(name.skip(12) =~= decimal(id as nat));
        },
    }
}

} // verus!
