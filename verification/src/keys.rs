//! Structured stream and stage identifiers.
//!
//! A stream is addressed by the triple (query_id, stage_id, stream_id); the
//! delimited string form `"query_id/stage_id/stream_id"` exists only at the
//! boundary, derived by [`StreamKey::render`].

use vstd::prelude::*;
use vstd::string::StringExecFns;
use vstd::string::StrSliceExecFns;

verus! {

/// Identifies one stage of one distributed query.
pub struct StageKey {
    pub query_id: String,
    pub stage_id: String,
}

impl View for StageKey {
    type V = (Seq<char>, Seq<char>);

    open spec fn view(&self) -> Self::V {
        (self.query_id@, self.stage_id@)
    }
}

impl StageKey {
    pub fn create(query_id: String, stage_id: String) -> (k: StageKey)
        ensures
            k@ == (query_id@, stage_id@),
    {
        StageKey { query_id, stage_id }
    }

    pub fn equals(&self, other: &StageKey) -> (r: bool)
        ensures
            r == (self@ == other@),
    {
        self.query_id == other.query_id && self.stage_id == other.stage_id
    }
}

/// Identifies one destination stream of a stage.
pub struct StreamKey {
    pub query_id: String,
    pub stage_id: String,
    pub stream_id: String,
}

impl View for StreamKey {
    type V = (Seq<char>, Seq<char>, Seq<char>);

    open spec fn view(&self) -> Self::V {
        (self.query_id@, self.stage_id@, self.stream_id@)
    }
}

/// The canonical delimited rendering of a stream key.
pub open spec fn render_spec(k: (Seq<char>, Seq<char>, Seq<char>)) -> Seq<char> {
    k.0 + "/"@ + k.1 + "/"@ + k.2
}

impl StreamKey {
    pub fn create(query_id: String, stage_id: String, stream_id: String) -> (k: StreamKey)
        ensures
            k@ == (query_id@, stage_id@, stream_id@),
    {
        StreamKey { query_id, stage_id, stream_id }
    }

    pub fn equals(&self, other: &StreamKey) -> (r: bool)
        ensures
            r == (self@ == other@),
    {
        self.query_id == other.query_id && self.stage_id == other.stage_id
            && self.stream_id == other.stream_id
    }

    /// Derive the boundary string form `"query_id/stage_id/stream_id"`.
    pub fn render(&self) -> (s: String)
        ensures
            s@ == render_spec(self@),
    {
        let mut s = self.query_id.clone();
        s.append("/");
        s.append(self.stage_id.as_str());
        s.append("/");
        s.append(self.stream_id.as_str());
        s
    }
}

/// Parse the boundary string form back into a structured key: the query id is
/// the text before the first delimiter, the stage id the text between the
/// first and the second, the stream id all the rest. Fails exactly when the
/// string holds fewer than two delimiters.
pub fn parse_stream_key(s: &str) -> (r: Option<StreamKey>)
    ensures
        match r {
            Option::Some(k) => {
                &&& render_spec(k@) == s@
                &&& !k.query_id@.contains('/')
                &&& !k.stage_id@.contains('/')
            },
            Option::None => forall|i: int, j: int|
                0 <= i < j < s@.len() ==> !(s@[i] == '/' && s@[j] == '/'),
        },
{
    let len = s.unicode_len();
    let mut i: usize = 0;
    let mut first: usize = len;
    while i < len
        invariant
            i <= len,
            first <= len,
            len == s@.len(),
            first == len ==> forall|t: int| 0 <= t < i ==> s@[t] != '/',
            first < len ==> first < i && s@[first as int] == '/' && (forall|t: int|
                0 <= t < first ==> s@[t] != '/'),
        decreases len - i,
    {
        if first == len && s.get_char(i) == '/' {
            first = i;
        }
        i = i + 1;
    }
    if first == len {
        return Option::None;
    }
    let mut j: usize = first + 1;
    let mut second: usize = len;
    while j < len
        invariant
            first < j <= len,
            second <= len,
            len == s@.len(),
            second == len ==> forall|t: int| first < t < j ==> s@[t] != '/',
            second < len ==> first < second < j && s@[second as int] == '/' && (forall|t: int|
                first < t < second ==> s@[t] != '/'),
        decreases len - j,
    {
        if second == len && s.get_char(j) == '/' {
            second = j;
        }
        j = j + 1;
    }
    if second == len {
        proof {
            assert forall|x: int, y: int| 0 <= x < y < s@.len() implies !(s@[x] == '/' && s@[y]
                == '/') by {
                if s@[x] == '/' && s@[y] == '/' {
                    assert(x == first && y == first);
                }
            }
        }
        return Option::None;
    }
    let query_id = s.substring_char(0, first).to_owned();
    let stage_id = s.substring_char(first + 1, second).to_owned();
    let stream_id = s.substring_char(second + 1, len).to_owned();
    let k = StreamKey { query_id, stage_id, stream_id };
    proof {
        reveal_strlit("/");
        assert(render_spec(k@) =~= s@);
        assert forall|t: int| 0 <= t < k.query_id@.len() implies k.query_id@[t] != '/' by {
            assert(k.query_id@[t] == s@[t]);
        }
        assert forall|t: int| 0 <= t < k.stage_id@.len() implies k.stage_id@[t] != '/' by {
            assert(k.stage_id@[t] == s@[first + 1 + t]);
        }
    }
    Option::Some(k)
}

} // verus!
