use vstd::prelude::*;
use vstd::slice::slice_subrange;
use crate::text::{chars_of, find_char, find_char_in, lemma_find_char, string_from_chars};
use crate::url::{url_decode_chars, url_decoded};

verus! {

/// The decoded key and value of one `key=value` piece of a query string;
/// a piece without `=` is a key with an empty value.
pub open spec fn query_pair(piece: Seq<char>) -> (Seq<char>, Seq<char>) {
    match find_char(piece, '=') {
        Some(i) => (url_decoded(piece.take(i)), url_decoded(piece.skip(i + 1))),
        None => (url_decoded(piece), Seq::<char>::empty()),
    }
}

pub open spec fn piece_pairs(piece: Seq<char>) -> Seq<(Seq<char>, Seq<char>)> {
    if piece.len() == 0 {
        Seq::empty()
    } else {
        seq![query_pair(piece)]
    }
}

/// The key-value pairs of a query string, in order: the pieces between
/// `&`s, empty pieces skipped.
pub open spec fn query_pairs(q: Seq<char>) -> Seq<(Seq<char>, Seq<char>)>
    decreases q.len(),
{
    match find_char(q, '&') {
        Some(i) => {
            proof {
                lemma_find_char(q, '&');
            }
            piece_pairs(q.take(i)) + query_pairs(q.skip(i + 1))
        },
        None => piece_pairs(q),
    }
}

/// The value given last for `key`, if any.
pub open spec fn last_value(pairs: Seq<(Seq<char>, Seq<char>)>, key: Seq<char>) -> Option<Seq<char>>
    decreases pairs.len(),
{
    if pairs.len() == 0 {
        None
    } else if pairs.last().0 == key {
        Some(pairs.last().1)
    } else {
        last_value(pairs.drop_last(), key)
    }
}

/// The map that a sequence of pairs builds when each is inserted in turn.
pub open spec fn pairs_map(pairs: Seq<(Seq<char>, Seq<char>)>) -> Map<Seq<char>, Seq<char>> {
    Map::new(|k: Seq<char>| last_value(pairs, k) is Some, |k: Seq<char>| last_value(pairs, k)->0)
}

/// Query parameters: a key maps to the value given last for it.
pub struct QueryParams {
    entries: Vec<(String, String)>,
}

impl QueryParams {
    pub closed spec fn pairs(&self) -> Seq<(Seq<char>, Seq<char>)> {
        self.entries@.map_values(|e: (String, String)| (e.0@, e.1@))
    }

    pub open spec fn lookup(&self, key: Seq<char>) -> Option<Seq<char>> {
        last_value(self.pairs(), key)
    }

    /// No parameters.
    pub fn new() -> (res: Self)
        ensures
            res.pairs() == Seq::<(Seq<char>, Seq<char>)>::empty(),
    {
        let res = QueryParams { entries: Vec::new() };
        assert(res.pairs() =~= Seq::<(Seq<char>, Seq<char>)>::empty());
        res
    }

    /// Sets `key` to `value`, replacing any value it had.
    pub fn insert(&mut self, key: String, value: String)
        ensures
            final(self).pairs() == old(self).pairs().push((key@, value@)),
    {
        self.entries.push((key, value));
        assert(self.pairs() =~= old(self).pairs().push((key@, value@)));
    }

    /// The value of `key`, if it has one.
    pub fn get(&self, key: &str) -> (res: Option<String>)
        ensures
            match res {
                Some(v) => self.lookup(key@) == Some(v@),
                None => self.lookup(key@) is None,
            },
    {
        let wanted = String::from_str(key);
        let mut i: usize = self.entries.len();
        assert(self.pairs().take(i as int) =~= self.pairs());
        while i > 0
            invariant
                0 <= i <= self.entries@.len(),
                wanted@ == key@,
                self.lookup(key@) == last_value(self.pairs().take(i as int), key@),
            decreases i,
        {
            let ghost prefix = self.pairs().take(i as int);
            assert(prefix.drop_last() =~= self.pairs().take(i - 1));
            assert(prefix.last() == (self.entries@[i - 1].0@, self.entries@[i - 1].1@));
            if self.entries[i - 1].0 == wanted {
                assert(prefix.last().0 == key@);
                assert(last_value(prefix, key@) == Some(prefix.last().1));
                return Some(self.entries[i - 1].1.clone());
            }
            i = i - 1;
        }
        None
    }

    /// Whether `key` has a value.
    pub fn contains_key(&self, key: &str) -> (res: bool)
        ensures
            res == self.lookup(key@) is Some,
    {
        self.get(key).is_some()
    }
}

impl View for QueryParams {
    type V = Map<Seq<char>, Seq<char>>;

    open spec fn view(&self) -> Map<Seq<char>, Seq<char>> {
        pairs_map(self.pairs())
    }
}

/// Decodes one piece of a query string into its key and value.
fn decode_piece(piece: &[char]) -> (res: (String, String))
    requires
        piece@.len() > 0,
    ensures
        (res.0@, res.1@) == query_pair(piece@),
{
    match find_char_in(piece, '=') {
        Some(i) => {
            proof {
                lemma_find_char(piece@, '=');
            }
            let k = url_decode_chars(slice_subrange(piece, 0, i));
            let v = url_decode_chars(slice_subrange(piece, i + 1, piece.len()));
            assert(piece@.subrange(0, i as int) =~= piece@.take(i as int));
            assert(piece@.subrange(i + 1, piece@.len() as int) =~= piece@.skip(i + 1));
            (k, v)
        },
        None => (url_decode_chars(piece), String::new()),
    }
}

/// The parameters of a URL-encoded query string (`a=1&b=2`). Pieces
/// are split at `&`, empty ones skipped; keys and values are URL
/// decoded; a key given twice keeps its last value.
pub fn urlencoded_params(s: &str) -> (res: QueryParams)
    ensures
        res.pairs() == query_pairs(s@),
        res@ == pairs_map(query_pairs(s@)),
{
    let cs = chars_of(s);
    let mut res = QueryParams::new();
    let mut rest: &[char] = cs.as_slice();
    loop
        invariant_except_break
            query_pairs(s@) == res.pairs() + query_pairs(rest@),
        ensures
            query_pairs(s@) == res.pairs(),
        decreases rest@.len(),
    {
        let ghost before = res.pairs();
        match find_char_in(rest, '&') {
            Some(i) => {
                proof {
                    lemma_find_char(rest@, '&');
                }
                let piece = slice_subrange(rest, 0, i);
                assert(piece@ =~= rest@.take(i as int));
                if i > 0 {
                    let (k, v) = decode_piece(piece);
                    res.insert(k, v);
                }
                let next = slice_subrange(rest, i + 1, rest.len());
                assert(next@ =~= rest@.skip(i + 1));
                assert(res.pairs() =~= before + piece_pairs(rest@.take(i as int)));
                rest = next;
            },
            None => {
                if rest.len() > 0 {
                    let (k, v) = decode_piece(rest);
                    res.insert(k, v);
                }
                assert(res.pairs() =~= before + piece_pairs(rest@));
                assert(query_pairs(s@) =~= res.pairs());
                break;
            },
        }
    }
    res
}

/// The path of a request target: what comes before the first `?`.
pub open spec fn target_path(raw: Seq<char>) -> Seq<char> {
    match find_char(raw, '?') {
        Some(i) => raw.take(i),
        None => raw,
    }
}

/// The query pairs of a request target: those after the first `?`, none
/// without one.
pub open spec fn target_query(raw: Seq<char>) -> Seq<(Seq<char>, Seq<char>)> {
    match find_char(raw, '?') {
        Some(i) => query_pairs(raw.skip(i + 1)),
        None => Seq::empty(),
    }
}

/// The path of a raw `path?query` target and its query parameters; the
/// query starts after the first `?` and is empty without one.
pub fn parse_path_query(raw: &str) -> (res: (String, QueryParams))
    ensures
        res.0@ == target_path(raw@),
        res.1.pairs() == target_query(raw@),
{
    let cs = chars_of(raw);
    match find_char_in(cs.as_slice(), '?') {
        Some(i) => {
            proof {
                lemma_find_char(raw@, '?');
            }
            let path = string_from_chars(slice_subrange(cs.as_slice(), 0, i));
            let query = string_from_chars(slice_subrange(cs.as_slice(), i + 1, cs.len()));
            assert(path@ =~= raw@.take(i as int));
            assert(query@ =~= raw@.skip(i + 1));
            (path, urlencoded_params(query.as_str()))
        },
        None => {
            let path = string_from_chars(cs.as_slice());
            let params = urlencoded_params("");
            proof {
                reveal_strlit("");
                assert(find_char(""@, '&') is None);
            }
            (path, params)
        },
    }
}

} // verus!
