use vstd::prelude::*;

verus! {

/// Separator between the pairs of a wire message.
pub open spec fn pair_sep() -> char {
    ';'
}

/// Separator between a key and its value.
pub open spec fn kv_sep() -> char {
    '='
}

/// Pieces of `s` between occurrences of `sep`, as `str::split` yields them:
/// always at least one piece, empty pieces included.
pub open spec fn split_on(s: Seq<char>, sep: char) -> Seq<Seq<char>>
    decreases s.len(),
{
    if s.len() == 0 {
        seq![Seq::<char>::empty()]
    } else {
        let prev = split_on(s.drop_last(), sep);
        if s.last() == sep {
            prev.push(Seq::<char>::empty())
        } else {
            prev.update(prev.len() - 1, prev.last().push(s.last()))
        }
    }
}

/// `i` is the position of the first `c` in `s`.
pub open spec fn is_first(s: Seq<char>, c: char, i: int) -> bool {
    &&& 0 <= i < s.len()
    &&& s[i] == c
    &&& forall|k: int| 0 <= k < i ==> s[k] != c
}

/// A segment split at its first `=`; `None` when it holds no `=`.
pub open spec fn pair_of(seg: Seq<char>) -> Option<(Seq<char>, Seq<char>)> {
    if exists|i: int| is_first(seg, kv_sep(), i) {
        let i = choose|i: int| is_first(seg, kv_sep(), i);
        Some((seg.subrange(0, i), seg.subrange(i + 1, seg.len() as int)))
    } else {
        None
    }
}

/// No two entries share a key.
pub open spec fn keys_unique(m: Seq<(Seq<char>, Seq<char>)>) -> bool {
    forall|i: int, j: int| 0 <= i < m.len() && 0 <= j < m.len() && i != j ==> m[i].0 != m[j].0
}

/// `k` is a key of the mapping.
pub open spec fn has_key(m: Seq<(Seq<char>, Seq<char>)>, k: Seq<char>) -> bool {
    exists|i: int| 0 <= i < m.len() && m[i].0 == k
}

/// Sets `k` to `v`: in place where `k` is present, else appended.
pub open spec fn map_insert(m: Seq<(Seq<char>, Seq<char>)>, k: Seq<char>, v: Seq<char>) -> Seq<
    (Seq<char>, Seq<char>),
> {
    if has_key(m, k) {
        let i = choose|i: int| 0 <= i < m.len() && m[i].0 == k;
        m.update(i, (k, v))
    } else {
        m.push((k, v))
    }
}

/// Folds segments into the ordered mapping and the list of malformed segments.
pub open spec fn fold_segments(segs: Seq<Seq<char>>) -> (
    Seq<(Seq<char>, Seq<char>)>,
    Seq<Seq<char>>,
)
    decreases segs.len(),
{
    if segs.len() == 0 {
        (Seq::empty(), Seq::empty())
    } else {
        let prev = fold_segments(segs.drop_last());
        match pair_of(segs.last()) {
            Some(kv) => (map_insert(prev.0, kv.0, kv.1), prev.1),
            None => (prev.0, prev.1.push(segs.last())),
        }
    }
}

/// Decoding of a wire text: the mapping (first-seen key order, last value
/// wins) and the segments that hold no `=`.
pub open spec fn decode_model(s: Seq<char>) -> (Seq<(Seq<char>, Seq<char>)>, Seq<Seq<char>>) {
    fold_segments(split_on(s, pair_sep()))
}

/// `key=value`
pub open spec fn pair_text(p: (Seq<char>, Seq<char>)) -> Seq<char> {
    p.0 + seq![kv_sep()] + p.1
}

/// The pairs joined by `;`, with no trailing separator.
pub open spec fn encode_model(m: Seq<(Seq<char>, Seq<char>)>) -> Seq<char>
    decreases m.len(),
{
    if m.len() == 0 {
        Seq::empty()
    } else if m.len() == 1 {
        pair_text(m[0])
    } else {
        encode_model(m.drop_last()) + seq![pair_sep()] + pair_text(m.last())
    }
}

pub open spec fn strings_view(v: Seq<String>) -> Seq<Seq<char>> {
    v.map_values(|s: String| s@)
}

pub open spec fn pairs_view(v: Seq<(String, String)>) -> Seq<(Seq<char>, Seq<char>)> {
    v.map_values(|p: (String, String)| (p.0@, p.1@))
}

/// An ordered mapping from keys to values, as carried by a wire message.
pub struct Params {
    pub entries: Vec<(String, String)>,
}

impl View for Params {
    type V = Seq<(Seq<char>, Seq<char>)>;

    open spec fn view(&self) -> Self::V {
        pairs_view(self.entries@)
    }
}

/// Result of decoding a wire text.
pub struct Decoded {
    pub params: Params,
    /// Segments that hold no `=`, in the order met.
    pub malformed: Vec<String>,
}

pub proof fn lemma_split_nonempty(s: Seq<char>, sep: char)
    ensures
        split_on(s, sep).len() >= 1,
    decreases s.len(),
{
    if s.len() > 0 {
        lemma_split_nonempty(s.drop_last(), sep);
    }
}

/// Splits `text` at every `sep`.
pub fn split_text(text: &str, sep: char) -> (r: Vec<String>)
    ensures
        strings_view(r@) == split_on(text@, sep),
{
    let n = text.unicode_len();
    let mut pieces: Vec<String> = Vec::new();
    let mut start: usize = 0;
    let mut i: usize = 0;
    assert(strings_view(pieces@) == Seq::<Seq<char>>::empty());
    assert(text@.subrange(0, 0) == Seq::<char>::empty());
    while i < n
        invariant
            n == text@.len(),
            start <= i <= n,
            strings_view(pieces@).push(text@.subrange(start as int, i as int)) == split_on(
                text@.subrange(0, i as int),
                sep,
            ),
        decreases n - i,
    {
        let c = text.get_char(i);
        let ghost prefix = text@.subrange(0, i as int + 1);
        assert(prefix.drop_last() == text@.subrange(0, i as int));
        assert(prefix.last() == c);
        if c == sep {
            let piece = text.substring_char(start, i).to_owned();
            let ghost before = pieces@;
            pieces.push(piece);
            start = i + 1;
            assert(strings_view(pieces@) == strings_view(before).push(piece@));
            assert(text@.subrange(start as int, i as int + 1) == Seq::<char>::empty());
        } else {
            assert(text@.subrange(start as int, i as int + 1) == text@.subrange(
                start as int,
                i as int,
            ).push(c));
        }
        i = i + 1;
    }
    let last = text.substring_char(start, n).to_owned();
    let ghost before = pieces@;
    pieces.push(last);
    assert(strings_view(pieces@) == strings_view(before).push(last@));
    assert(text@.subrange(0, n as int) == text@);
    pieces
}

/// Splits a segment at its first `=`.
pub fn split_pair(seg: &str) -> (r: Option<(String, String)>)
    ensures
        match r {
            Some(p) => pair_of(seg@) == Some((p.0@, p.1@)),
            None => pair_of(seg@) is None,
        },
{
    let n = seg.unicode_len();
    let mut j: usize = 0;
    while j < n
        invariant
            n == seg@.len(),
            j <= n,
            forall|k: int| 0 <= k < j ==> seg@[k] != kv_sep(),
        decreases n - j,
    {
        if seg.get_char(j) == '=' {
            assert(is_first(seg@, kv_sep(), j as int));
            let ghost i = choose|i: int| is_first(seg@, kv_sep(), i);
            assert(i == j) by {
                if i < j {
                    assert(seg@[i] != kv_sep());
                } else if j < i {
                    assert(seg@[j as int] != kv_sep());
                }
            };
            let key = seg.substring_char(0, j).to_owned();
            let value = seg.substring_char(j + 1, n).to_owned();
            return Some((key, value));
        }
        j = j + 1;
    }
    assert(!exists|i: int| is_first(seg@, kv_sep(), i)) by {
        assert forall|i: int| !is_first(seg@, kv_sep(), i) by {
            if 0 <= i < seg@.len() {
                assert(seg@[i] != kv_sep());
            }
        };
    };
    None
}

/// Finds the position of key `k` in the entries, if present.
fn find_key(entries: &Vec<(String, String)>, k: &String) -> (r: Option<usize>)
    ensures
        match r {
            Some(i) => i < entries@.len() && pairs_view(entries@)[i as int].0 == k@,
            None => !has_key(pairs_view(entries@), k@),
        },
{
    let mut i: usize = 0;
    while i < entries.len()
        invariant
            i <= entries@.len(),
            forall|j: int| 0 <= j < i ==> pairs_view(entries@)[j].0 != k@,
        decreases entries@.len() - i,
    {
        if entries[i].0 == *k {
            return Some(i);
        }
        i = i + 1;
    }
    None
}

/// Sets `k` to `v` in the entries: in place where `k` is present, else appended.
fn insert_entry(entries: &mut Vec<(String, String)>, k: String, v: String)
    requires
        keys_unique(pairs_view(old(entries)@)),
    ensures
        pairs_view(final(entries)@) == map_insert(pairs_view(old(entries)@), k@, v@),
        keys_unique(pairs_view(final(entries)@)),
{
    let ghost m = pairs_view(entries@);
    match find_key(entries, &k) {
        Some(i) => {
            let ghost c = choose|c: int| 0 <= c < m.len() && m[c].0 == k@;
            assert(c == i as int);
            let ghost kv = k@;
            let ghost vv = v@;
            entries.set(i, (k, v));
            assert(pairs_view(entries@) == m.update(i as int, (kv, vv)));
        },
        None => {
            let ghost kv = k@;
            let ghost vv = v@;
            entries.push((k, v));
            assert(pairs_view(entries@) == m.push((kv, vv)));
        },
    }
}

/// The value bound to `k`, where the mapping has that key.
pub open spec fn lookup(m: Seq<(Seq<char>, Seq<char>)>, k: Seq<char>) -> Option<Seq<char>> {
    if has_key(m, k) {
        Some(m[choose|i: int| 0 <= i < m.len() && m[i].0 == k].1)
    } else {
        None
    }
}

impl Params {
    /// The value bound to `key`.
    pub fn get(&self, key: &str) -> (r: Option<&String>)
        requires
            keys_unique(self@),
        ensures
            match r {
                Some(v) => lookup(self@, key@) == Some(v@),
                None => lookup(self@, key@) is None,
            },
    {
        let k = key.to_owned();
        match find_key(&self.entries, &k) {
            Some(i) => {
                let ghost m = self@;
                let ghost c = choose|c: int| 0 <= c < m.len() && m[c].0 == k@;
                assert(c == i as int);
                Some(&self.entries[i].1)
            },
            None => None,
        }
    }
}

/// The command message `action=..;param=..;value=..`.
pub fn command_text(action: &str, param: &str, value: &str) -> (r: String)
    ensures
        r@ == encode_model(
            seq![("action"@, action@), ("param"@, param@), ("value"@, value@)],
        ),
{
    let entries = vec![
        (String::from_str("action"), action.to_owned()),
        (String::from_str("param"), param.to_owned()),
        (String::from_str("value"), value.to_owned()),
    ];
    let params = Params { entries };
    assert(params@ =~= seq![("action"@, action@), ("param"@, param@), ("value"@, value@)]);
    encode(&params)
}

/// The relayed form `param=<type>;value=<pos>` of a pointer event carried
/// as `pos=..;type=..`; `None` when either field is missing.
pub fn pointer_command(text: &str) -> (r: Option<String>)
    ensures
        match (lookup(decode_model(text@).0, "type"@), lookup(decode_model(text@).0, "pos"@)) {
            (Some(t), Some(p)) => r is Some && r->Some_0@ == encode_model(
                seq![("param"@, t), ("value"@, p)],
            ),
            _ => r is None,
        },
{
    let d = decode(text);
    let event_type = d.params.get("type");
    let pos = d.params.get("pos");
    match (event_type, pos) {
        (Some(t), Some(p)) => {
            let entries = vec![
                (String::from_str("param"), t.clone()),
                (String::from_str("value"), p.clone()),
            ];
            let params = Params { entries };
            assert(params@ =~= seq![("param"@, t@), ("value"@, p@)]);
            Some(encode(&params))
        },
        _ => None,
    }
}

/// Decodes a wire text `key1=val1;key2=val2;...` into its ordered mapping,
/// and reports each segment that holds no `=`.
pub fn decode(text: &str) -> (r: Decoded)
    ensures
        r.params@ == decode_model(text@).0,
        strings_view(r.malformed@) == decode_model(text@).1,
        keys_unique(r.params@),
{
    let segs = split_text(text, ';');
    let mut entries: Vec<(String, String)> = Vec::new();
    let mut malformed: Vec<String> = Vec::new();
    let mut i: usize = 0;
    assert(strings_view(segs@).subrange(0, 0) == Seq::<Seq<char>>::empty());
    while i < segs.len()
        invariant
            i <= segs@.len(),
            strings_view(segs@) == split_on(text@, pair_sep()),
            keys_unique(pairs_view(entries@)),
            (pairs_view(entries@), strings_view(malformed@)) == fold_segments(
                strings_view(segs@).subrange(0, i as int),
            ),
        decreases segs@.len() - i,
    {
        let ghost sv = strings_view(segs@);
        assert(sv.subrange(0, i as int + 1).drop_last() == sv.subrange(0, i as int));
        assert(sv.subrange(0, i as int + 1).last() == segs@[i as int]@);
        match split_pair(segs[i].as_str()) {
            Some((k, v)) => {
                insert_entry(&mut entries, k, v);
            },
            None => {
                let ghost before = malformed@;
                malformed.push(segs[i].clone());
                assert(strings_view(malformed@) == strings_view(before).push(segs@[i as int]@));
            },
        }
        i = i + 1;
    }
    assert(strings_view(segs@).subrange(0, segs@.len() as int) == strings_view(segs@));
    Decoded { params: Params { entries }, malformed }
}

/// Decodes a wire text into its ordered mapping, skipping malformed segments.
pub fn parse_params(query_string: String) -> (r: Params)
    ensures
        r@ == decode_model(query_string@).0,
{
    decode(query_string.as_str()).params
}

/// Encodes the entries as `key1=val1;key2=val2;...`, in their order.
pub fn encode(params: &Params) -> (r: String)
    ensures
        r@ == encode_model(params@),
{
    let entries = &params.entries;
    let mut out = String::new();
    let mut i: usize = 0;
    proof {
        reveal_strlit(";");
        reveal_strlit("=");
    }
    while i < entries.len()
        invariant
            i <= entries@.len(),
            out@ == encode_model(pairs_view(entries@).subrange(0, i as int)),
            ";"@ == seq![pair_sep()],
            "="@ == seq![kv_sep()],
        decreases entries@.len() - i,
    {
        let ghost m = pairs_view(entries@).subrange(0, i as int + 1);
        assert(m.drop_last() == pairs_view(entries@).subrange(0, i as int));
        if i > 0 {
            out.append(";");
        }
        out.append(entries[i].0.as_str());
        out.append("=");
        out.append(entries[i].1.as_str());
        if i == 0 {
            assert(out@ == pair_text(m[0]));
        }
        i = i + 1;
    }
    assert(pairs_view(entries@).subrange(0, entries@.len() as int) == pairs_view(entries@));
    out
}

/// `t` holds neither separator.
pub open spec fn free_of_seps(t: Seq<char>) -> bool {
    forall|i: int| 0 <= i < t.len() ==> t[i] != kv_sep() && t[i] != pair_sep()
}

/// Every key and value of the mapping holds neither separator.
pub open spec fn entries_free_of_seps(m: Seq<(Seq<char>, Seq<char>)>) -> bool {
    forall|i: int| 0 <= i < m.len() ==> free_of_seps(m[i].0) && free_of_seps(m[i].1)
}

proof fn lemma_split_append_free(x: Seq<char>, y: Seq<char>, c: char)
    requires
        forall|i: int| 0 <= i < y.len() ==> y[i] != c,
    ensures
        split_on(x + y, c) == split_on(x, c).update(
            split_on(x, c).len() - 1,
            split_on(x, c).last() + y,
        ),
    decreases y.len(),
{
    lemma_split_nonempty(x, c);
    let sx = split_on(x, c);
    if y.len() == 0 {
        assert(x + y == x);
        assert(sx.last() + y == sx.last());
        assert(sx.update(sx.len() - 1, sx.last()) == sx);
    } else {
        let z = x + y;
        assert(z.drop_last() == x + y.drop_last());
        assert(z.last() == y.last());
        lemma_split_append_free(x, y.drop_last(), c);
        assert((sx.last() + y.drop_last()).push(y.last()) == sx.last() + y);
        assert(split_on(z, c) == sx.update(sx.len() - 1, sx.last() + y));
    }
}

proof fn lemma_split_encode(m: Seq<(Seq<char>, Seq<char>)>)
    requires
        m.len() >= 1,
        entries_free_of_seps(m),
    ensures
        split_on(encode_model(m), pair_sep()) == m.map_values(|p: (Seq<char>, Seq<char>)| pair_text(p)),
    decreases m.len(),
{
    let pt = pair_text(m.last());
    assert(forall|i: int| 0 <= i < pt.len() ==> pt[i] != pair_sep()) by {
        assert forall|i: int| 0 <= i < pt.len() implies pt[i] != pair_sep() by {
            let k = m.last().0;
            if i < k.len() {
                assert(pt[i] == k[i]);
            } else if i > k.len() {
                assert(pt[i] == m.last().1[i - k.len() - 1]);
            }
        };
    };
    if m.len() == 1 {
        let e = Seq::<char>::empty();
        assert(e + pt == pt);
        lemma_split_append_free(e, pt, pair_sep());
        assert(split_on(e, pair_sep()) == seq![e]);
        assert(e + pt == pt);
        assert(m.last() == m[0]);
    } else {
        let d = m.drop_last();
        assert(entries_free_of_seps(d)) by {
            assert forall|i: int| 0 <= i < d.len() implies free_of_seps(d[i].0) && free_of_seps(
                d[i].1,
            ) by {
                assert(d[i] == m[i]);
            };
        };
        lemma_split_encode(d);
        let x = encode_model(d).push(pair_sep());
        assert(x.drop_last() == encode_model(d));
        assert(encode_model(m) == x + pt);
        lemma_split_append_free(x, pt, pair_sep());
        assert(Seq::<char>::empty() + pt == pt);
        assert(split_on(encode_model(m), pair_sep()) == split_on(encode_model(d), pair_sep()).push(
            pt,
        ));
        assert(m.map_values(|p: (Seq<char>, Seq<char>)| pair_text(p)) == d.map_values(
            |p: (Seq<char>, Seq<char>)| pair_text(p),
        ).push(pt));
    }
}

proof fn lemma_pair_of_text(k: Seq<char>, v: Seq<char>)
    requires
        forall|i: int| 0 <= i < k.len() ==> k[i] != kv_sep(),
    ensures
        pair_of(pair_text((k, v))) == Some((k, v)),
{
    let t = pair_text((k, v));
    let n = k.len() as int;
    assert(t[n] == kv_sep());
    assert forall|j: int| 0 <= j < n implies t[j] != kv_sep() by {
        assert(t[j] == k[j]);
    };
    assert(is_first(t, kv_sep(), n));
    let i = choose|i: int| is_first(t, kv_sep(), i);
    assert(i == n) by {
        if i < n {
            assert(t[i] == k[i]);
        } else if i > n {
            assert(t[n] != kv_sep());
        }
    };
    assert(t.subrange(0, n) == k);
    assert(t.subrange(n + 1, t.len() as int) == v);
}

proof fn lemma_fold_encoded(m: Seq<(Seq<char>, Seq<char>)>)
    requires
        keys_unique(m),
        entries_free_of_seps(m),
    ensures
        fold_segments(m.map_values(|p: (Seq<char>, Seq<char>)| pair_text(p))) == (
            m,
            Seq::<Seq<char>>::empty(),
        ),
    decreases m.len(),
{
    let segs = m.map_values(|p: (Seq<char>, Seq<char>)| pair_text(p));
    if m.len() > 0 {
        let d = m.drop_last();
        assert(segs.drop_last() == d.map_values(|p: (Seq<char>, Seq<char>)| pair_text(p)));
        assert(keys_unique(d));
        assert(entries_free_of_seps(d)) by {
            assert forall|i: int| 0 <= i < d.len() implies free_of_seps(d[i].0) && free_of_seps(
                d[i].1,
            ) by {
                assert(d[i] == m[i]);
            };
        };
        lemma_fold_encoded(d);
        let last = m.last();
        assert(free_of_seps(m[m.len() - 1].0));
        lemma_pair_of_text(last.0, last.1);
        assert(!has_key(d, last.0)) by {
            if has_key(d, last.0) {
                let i = choose|i: int| 0 <= i < d.len() && d[i].0 == last.0;
                assert(m[i].0 == m[m.len() - 1].0);
            }
        };
        assert(d.push(last) == m);
    } else {
        assert(segs == Seq::<Seq<char>>::empty());
    }
}

proof fn lemma_map_insert_unique(m: Seq<(Seq<char>, Seq<char>)>, k: Seq<char>, v: Seq<char>)
    requires
        keys_unique(m),
    ensures
        keys_unique(map_insert(m, k, v)),
        map_insert(m, k, v).len() >= 1,
        map_insert(m, k, v).len() >= m.len(),
{
}

proof fn lemma_fold_props(segs: Seq<Seq<char>>)
    ensures
        keys_unique(fold_segments(segs).0),
        segs.len() >= 1 ==> fold_segments(segs).0.len() + fold_segments(segs).1.len() >= 1,
    decreases segs.len(),
{
    if segs.len() > 0 {
        lemma_fold_props(segs.drop_last());
        let prev = fold_segments(segs.drop_last());
        match pair_of(segs.last()) {
            Some(kv) => lemma_map_insert_unique(prev.0, kv.0, kv.1),
            None => {},
        }
    }
}

/// A decoded mapping always has distinct keys.
pub proof fn lemma_decode_keys_unique(s: Seq<char>)
    ensures
        keys_unique(decode_model(s).0),
{
    lemma_fold_props(split_on(s, pair_sep()));
}

/// Encoding is inverted by decoding: a mapping with distinct keys whose keys
/// and values hold neither `=` nor `;` decodes back to itself, and a nonempty
/// one leaves no malformed segment.
pub proof fn lemma_encode_decode(m: Seq<(Seq<char>, Seq<char>)>)
    requires
        keys_unique(m),
        entries_free_of_seps(m),
    ensures
        decode_model(encode_model(m)).0 == m,
        m.len() >= 1 ==> decode_model(encode_model(m)).1.len() == 0,
{
    if m.len() >= 1 {
        lemma_split_encode(m);
        lemma_fold_encoded(m);
    } else {
        assert(encode_model(m) == Seq::<char>::empty());
        let segs = split_on(Seq::<char>::empty(), pair_sep());
        assert(segs == seq![Seq::<char>::empty()]);
        assert(segs.drop_last() == Seq::<Seq<char>>::empty());
        assert(pair_of(segs.last()) is None);
        assert(fold_segments(segs.drop_last()).0 == Seq::<(Seq<char>, Seq<char>)>::empty());
        assert(fold_segments(segs).0 == Seq::<(Seq<char>, Seq<char>)>::empty());
        assert(m == Seq::<(Seq<char>, Seq<char>)>::empty());
    }
}

/// Round-trip stability: decoding, encoding and decoding again yields the
/// first decoding's mapping when its keys and values hold neither `=` nor
/// `;`; for a wire text with no malformed segment the whole decoding is kept.
pub proof fn lemma_decode_round_trip(s: Seq<char>)
    requires
        entries_free_of_seps(decode_model(s).0),
    ensures
        decode_model(encode_model(decode_model(s).0)).0 == decode_model(s).0,
        decode_model(s).1.len() == 0 ==> decode_model(encode_model(decode_model(s).0))
            == decode_model(s),
{
    let m = decode_model(s).0;
    lemma_decode_keys_unique(s);
    lemma_split_nonempty(s, pair_sep());
    lemma_fold_props(split_on(s, pair_sep()));
    lemma_encode_decode(m);
}

/// The decimal digit for `d < 10`.
pub open spec fn digit_char(d: nat) -> char {
    if d == 0 {
        '0'
    } else if d == 1 {
        '1'
    } else if d == 2 {
        '2'
    } else if d == 3 {
        '3'
    } else if d == 4 {
        '4'
    } else if d == 5 {
        '5'
    } else if d == 6 {
        '6'
    } else if d == 7 {
        '7'
    } else if d == 8 {
        '8'
    } else {
        '9'
    }
}

/// Decimal notation of `n`, without leading zeros.
pub open spec fn decimal(n: nat) -> Seq<char>
    decreases n,
{
    if n < 10 {
        seq![digit_char(n)]
    } else {
        decimal(n / 10).push(digit_char(n % 10))
    }
}

fn digit_str(d: u64) -> (r: &'static str)
    requires
        d < 10,
    ensures
        r@ == seq![digit_char(d as nat)],
{
    proof {
        reveal_strlit("0");
        reveal_strlit("1");
        reveal_strlit("2");
        reveal_strlit("3");
        reveal_strlit("4");
        reveal_strlit("5");
        reveal_strlit("6");
        reveal_strlit("7");
        reveal_strlit("8");
        reveal_strlit("9");
    }
    if d == 0 {
        "0"
    } else if d == 1 {
        "1"
    } else if d == 2 {
        "2"
    } else if d == 3 {
        "3"
    } else if d == 4 {
        "4"
    } else if d == 5 {
        "5"
    } else if d == 6 {
        "6"
    } else if d == 7 {
        "7"
    } else if d == 8 {
        "8"
    } else {
        "9"
    }
}

/// Decimal notation of `n`.
pub fn decimal_string(n: u64) -> (r: String)
    ensures
        r@ == decimal(n as nat),
    decreases n,
{
    if n < 10 {
        String::from_str(digit_str(n))
    } else {
        let mut r = decimal_string(n / 10);
        r.append(digit_str(n % 10));
        r
    }
}

} // verus!
