//! The line protocol: a metric path, a decimal value, an integer
//! timestamp, then any number of `key:value` tags, separated by whitespace.
use vstd::prelude::*;
use crate::metric::{events_view, TagMap, Tags, Telemetry, TelemetryView};
use crate::number::{
    is_decimal, is_integer, lemma_decimal_is_word, lemma_integer_is_word, parse_i64, parsed_i64,
    Decimal,
};
use crate::text::{
    chars_of, is_word, joined, lemma_tokens_of_joined, split_whitespace, string_of, tokens,
    words_view,
};

verus! {

/// `k` is where the first colon of `w` stands.
pub open spec fn is_first_colon(w: Seq<char>, k: int) -> bool {
    &&& 0 <= k < w.len()
    &&& w[k] == ':'
    &&& forall|i: int| 0 <= i < k ==> #[trigger] w[i] != ':'
}

/// The key and the value of a tag word: what stands before its first colon
/// and what stands after it. The key is not empty; the value may be, and
/// may hold further colons. A word without a colon is no tag.
pub open spec fn tag_of(w: Seq<char>) -> Option<(Seq<char>, Seq<char>)> {
    if exists|k: int| is_first_colon(w, k) {
        let k = choose|k: int| is_first_colon(w, k);
        if k > 0 {
            Some((w.take(k), w.skip(k + 1)))
        } else {
            None
        }
    } else {
        None
    }
}

/// A word splits at its first colon and nowhere else.
pub proof fn lemma_tag_at_first_colon(w: Seq<char>, k: int)
    requires
        is_first_colon(w, k),
    ensures
        k > 0 ==> tag_of(w) == Some((w.take(k), w.skip(k + 1))),
        k == 0 ==> tag_of(w) is None,
{
    let c = choose|c: int| is_first_colon(w, c);
    assert(c == k) by {
        if c < k {
            assert(w[c] != ':');
        }
        if k < c {
            assert(w[k] != ':');
        }
    }
}

/// The tags that a sequence of tag words sets, from left to right: where a
/// key comes twice, its last value stays. `None` where a word is no tag.
pub open spec fn tags_of(words: Seq<Seq<char>>) -> Option<Tags>
    decreases words.len(),
{
    if words.len() == 0 {
        Some(Tags::empty())
    } else {
        match (tags_of(words.drop_last()), tag_of(words.last())) {
            (Some(tags), Some((k, v))) => Some(tags.insert(k, v)),
            _ => None,
        }
    }
}

/// The record that a line stands for over a template, or `None` where the
/// line is malformed: fewer than three words, a value that is no decimal,
/// a timestamp that is no integer of 64 bits, or a further word that is no
/// tag. The tags are those of the template with those of the line laid
/// over them.
pub open spec fn line_event(line: Seq<char>, template: TelemetryView) -> Option<TelemetryView> {
    let words = tokens(line);
    if words.len() < 3 {
        None
    } else {
        match (parsed_i64(words[2]), tags_of(words.skip(3))) {
            (Some(time), Some(tags)) if is_decimal(words[1]) => Some(
                TelemetryView {
                    name: Some(words[0]),
                    value: Some(words[1]),
                    timestamp: Some(time),
                    tags: template.tags.union_prefer_right(tags),
                },
            ),
            _ => None,
        }
    }
}

/// What parsing `line` over `template` makes of the records `before`:
/// on a well-formed line `ok` holds and `after` is `before` with the
/// record of the line behind it; on a malformed one `ok` fails and
/// `after` is `before`.
pub open spec fn parse_outcome(
    line: Seq<char>,
    template: TelemetryView,
    before: Seq<Telemetry>,
    after: Seq<Telemetry>,
    ok: bool,
) -> bool {
    match line_event(line, template) {
        Some(event) => ok && after.len() == before.len() + 1 && after.drop_last() == before
            && after.last()@ == event,
        None => !ok && after == before,
    }
}

/// A line of a name, a decimal, an integer of 64 bits and tag words gives
/// exactly one record: name, value and timestamp as written, and the tags
/// of the template with those of the line laid over them, so that on a
/// key that both set the line wins.
pub proof fn lemma_valid_line_parses(
    line: Seq<char>,
    template: TelemetryView,
    name: Seq<char>,
    value: Seq<char>,
    time: Seq<char>,
    tag_words: Seq<Seq<char>>,
)
    requires
        tokens(line) == seq![name, value, time] + tag_words,
        is_decimal(value),
        parsed_i64(time) is Some,
        tags_of(tag_words) is Some,
    ensures
        line_event(line, template) == Some(
            TelemetryView {
                name: Some(name),
                value: Some(value),
                timestamp: parsed_i64(time),
                tags: template.tags.union_prefer_right(tags_of(tag_words)->0),
            },
        ),
        forall|k: Seq<char>| #[trigger]
            tags_of(tag_words)->0.contains_key(k) ==> line_event(line, template)->0.tags[k]
                == tags_of(tag_words)->0[k],
        forall|k: Seq<char>|
            !tags_of(tag_words)->0.contains_key(k) && #[trigger] template.tags.contains_key(k)
                ==> line_event(line, template)->0.tags.contains_key(k) && line_event(
                line,
                template,
            )->0.tags[k] == template.tags[k],
{
    let words = tokens(line);
    assert(words[0] == name);
    assert(words[1] == value);
    assert(words[2] == time);
    assert(words.skip(3) == tag_words);
}

/// The same, of the line as it is written: the fields with one space
/// between them and a newline at the end.
pub proof fn lemma_written_line_parses(
    template: TelemetryView,
    name: Seq<char>,
    value: Seq<char>,
    time: Seq<char>,
    tag_words: Seq<Seq<char>>,
)
    requires
        is_word(name),
        is_decimal(value),
        parsed_i64(time) is Some,
        forall|k: int| 0 <= k < tag_words.len() ==> is_word(#[trigger] tag_words[k]),
        tags_of(tag_words) is Some,
    ensures
        line_event(joined(seq![name, value, time] + tag_words), template) == Some(
            TelemetryView {
                name: Some(name),
                value: Some(value),
                timestamp: parsed_i64(time),
                tags: template.tags.union_prefer_right(tags_of(tag_words)->0),
            },
        ),
{
    let words = seq![name, value, time] + tag_words;
    lemma_decimal_is_word(value);
    assert(is_integer(time));
    lemma_integer_is_word(time);
    assert forall|k: int| 0 <= k < words.len() implies is_word(#[trigger] words[k]) by {
        if k >= 3 {
            assert(words[k] == tag_words[k - 3]);
        }
    }
    lemma_tokens_of_joined(words);
    lemma_valid_line_parses(joined(words), template, name, value, time, tag_words);
}

/// A line that lacks the value or the timestamp, or whose value is no
/// decimal, or whose timestamp is no integer of 64 bits, gives no record.
pub proof fn lemma_malformed_line_fails(line: Seq<char>, template: TelemetryView)
    requires
        tokens(line).len() < 3 || !is_decimal(tokens(line)[1]) || parsed_i64(tokens(line)[2])
            is None,
    ensures
        line_event(line, template) is None,
{
}

/// Parsing is a function of the line and the template: two parses of one
/// line over one template agree on success and give equal records.
pub proof fn lemma_parse_twice_agrees(
    line: Seq<char>,
    template: TelemetryView,
    before: Seq<Telemetry>,
    first: Seq<Telemetry>,
    first_ok: bool,
    second: Seq<Telemetry>,
    second_ok: bool,
)
    requires
        parse_outcome(line, template, before, first, first_ok),
        parse_outcome(line, template, before, second, second_ok),
    ensures
        first_ok == second_ok,
        events_view(first) == events_view(second),
{
    if line_event(line, template) is Some {
        assert forall|i: int| 0 <= i < first.len() implies events_view(first)[i] == events_view(
            second,
        )[i] by {
            if i < before.len() {
                assert(first[i] == first.drop_last()[i]);
                assert(second[i] == second.drop_last()[i]);
            }
        }
        assert(events_view(first) =~= events_view(second));
    }
}

/// A word that is no tag spoils every sequence of words that starts with
/// the words up to it.
pub proof fn lemma_tags_of_prefix(words: Seq<Seq<char>>, n: int)
    requires
        0 <= n <= words.len(),
        tags_of(words.take(n)) is None,
    ensures
        tags_of(words) is None,
    decreases words.len(),
{
    if n < words.len() {
        assert(words.drop_last().take(n) == words.take(n));
        lemma_tags_of_prefix(words.drop_last(), n);
    } else {
        assert(words.take(n) == words);
    }
}

/// Reads one tag word.
pub fn parse_tag(word: &Vec<char>) -> (r: Option<(String, String)>)
    ensures
        match r {
            Some((k, v)) => tag_of(word@) == Some((k@, v@)),
            None => tag_of(word@) is None,
        },
{
    let n: usize = word.len();
    let mut key: Vec<char> = Vec::new();
    let mut i: usize = 0;
    while i < n && word[i] != ':'
        invariant
            i <= n,
            n == word.len(),
            key@ == word@.take(i as int),
            forall|k: int| 0 <= k < i ==> #[trigger] word@[k] != ':',
        decreases n - i,
    {
        key.push(word[i]);
        i += 1;
    }
    if i == n {
        assert(forall|k: int| !is_first_colon(word@, k));
        return None;
    }
    proof {
        assert(is_first_colon(word@, i as int));
        let k = choose|k: int| is_first_colon(word@, k);
        assert(k == i);
    }
    if i == 0 {
        return None;
    }
    let mut value: Vec<char> = Vec::new();
    let mut j: usize = i + 1;
    while j < n
        invariant
            i < j <= n,
            n == word.len(),
            value@ == word@.subrange(i + 1, j as int),
        decreases n - j,
    {
        value.push(word[j]);
        j += 1;
    }
    assert(word@.subrange(i + 1, n as int) == word@.skip(i + 1));
    Some((string_of(&key), string_of(&value)))
}

/// Reads the tag words `words[from..]` into a map.
fn parse_tags(words: &Vec<Vec<char>>, from: usize) -> (r: Option<TagMap>)
    requires
        from <= words.len(),
    ensures
        match r {
            Some(m) => tags_of(words_view(words@).skip(from as int)) == Some(m@),
            None => tags_of(words_view(words@).skip(from as int)) is None,
        },
{
    let ghost tail = words_view(words@).skip(from as int);
    let mut tags = TagMap::new();
    let mut i: usize = from;
    assert(tail.take(0) == Seq::<Seq<char>>::empty());
    while i < words.len()
        invariant
            from <= i <= words.len(),
            tail == words_view(words@).skip(from as int),
            tags_of(tail.take(i - from)) == Some(tags@),
        decreases words.len() - i,
    {
        let ghost next = tail.take(i + 1 - from);
        assert(next.drop_last() == tail.take(i - from));
        assert(next.last() == words@[i as int]@);
        match parse_tag(&words[i]) {
            Some((k, v)) => {
                tags.insert(k, v);
            },
            None => {
                proof {
                    lemma_tags_of_prefix(tail, i + 1 - from);
                }
                return None;
            },
        }
        i += 1;
    }
    assert(tail.take(i - from) == tail);
    Some(tags)
}

/// Parses the characters of one line against a template. On a well-formed
/// line the record is appended to `res` and `true` comes back; on a
/// malformed one `res` stays as it was and `false` comes back.
pub fn parse_chars(chars: &Vec<char>, res: &mut Vec<Telemetry>, template: &Telemetry) -> (ok: bool)
    ensures
        ok == line_event(chars@, template@) is Some,
        parse_outcome(chars@, template@, old(res)@, final(res)@, ok),
{
    let words = split_whitespace(chars);
    let ghost spec_words = tokens(chars@);
    if words.len() < 3 {
        return false;
    }
    assert(spec_words[0] == words@[0]@);
    assert(spec_words[1] == words@[1]@);
    assert(spec_words[2] == words@[2]@);
    let value = match Decimal::parse(&words[1]) {
        Some(value) => value,
        None => {
            return false;
        },
    };
    let time = match parse_i64(&words[2]) {
        Some(time) => time,
        None => {
            return false;
        },
    };
    let tags = match parse_tags(&words, 3) {
        Some(tags) => tags,
        None => {
            return false;
        },
    };
    let name = string_of(&words[0]);
    let event = Telemetry {
        name: Some(name),
        value: Some(value),
        timestamp: Some(time),
        tags: template.tags.clone(),
    }.overlay_tags_from_map(&tags);
    res.push(event);
    assert(res@.drop_last() == old(res)@);
    true
}

/// Parses one line against a template: `parse_chars` on the characters of
/// `line`.
pub fn parse_graphite(line: &str, res: &mut Vec<Telemetry>, template: &Telemetry) -> (ok: bool)
    ensures
        ok == line_event(line@, template@) is Some,
        parse_outcome(line@, template@, old(res)@, final(res)@, ok),
{
    let chars = chars_of(line);
    parse_chars(&chars, res, template)
}

} // verus!
