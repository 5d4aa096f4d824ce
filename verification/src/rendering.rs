//! Text rendering for messages.
//!
//! Helpers that lay out dependency chains, shorten qualified names and rank
//! "did you mean" candidates.

use crate::similarity::is_substring;
use crate::similarity::lowercase;
use crate::similarity::str_contains;
use crate::similarity::to_lowercase;
use crate::text::chars_of;
use crate::text::push_char;
use crate::text::push_chars;
use crate::text::push_spaces;
use crate::text::push_text;
use crate::text::spaces;
use vstd::prelude::*;
use vstd::utf8::encode_utf8;

verus! {

/// The parts joined into one text with `separator` between neighbours.
pub open spec fn joined(parts: Seq<Seq<char>>, separator: Seq<char>) -> Seq<char>
    decreases parts.len(),
{
    if parts.len() == 0 {
        Seq::empty()
    } else if parts.len() == 1 {
        parts[0]
    } else {
        joined(parts.drop_last(), separator) + separator + parts.last()
    }
}

/// The texts of a sequence of string slices.
pub open spec fn texts_of(parts: Seq<&str>) -> Seq<Seq<char>> {
    parts.map_values(|part: &str| part@)
}

/// Renders a dependency chain on one line, with arrows between the names.
pub fn render_chain(chain: &[&str]) -> (rendered: String)
    ensures
        rendered@ == joined(texts_of(chain@), " → "@),
{
    let ghost parts = texts_of(chain@);
    let n = chain.len();
    let mut rendered = String::new();
    let mut i: usize = 0;
    while i < n
        invariant
            n == chain@.len(),
            i <= n,
            parts == texts_of(chain@),
            rendered@ == joined(parts.take(i as int), " → "@),
        decreases n - i,
    {
        proof {
            assert(parts.take(i as int + 1).drop_last() =~= parts.take(i as int));
        }
        if i > 0 {
            push_text(&mut rendered, " → ");
        }
        push_text(&mut rendered, chain[i]);
        proof {
            if i == 0 {
                assert(rendered@ =~= chain@[0]@);
            }
        }
        i = i + 1;
    }
    assert(parts.take(n as int) =~= parts);
    rendered
}

/// An entry in a dependency chain for vertical rendering.
#[derive(Debug)]
pub struct ChainEntry {
    /// The name of the dependency.
    pub display_name: String,
    /// The scope, such as "Singleton" or "Scoped".
    pub scope: String,
    /// Optional: what factory or function creates this.
    pub source_name: Option<String>,
}

/// The width of the scope column: the greatest byte length of a scope.
pub open spec fn scope_width(entries: Seq<ChainEntry>) -> nat
    decreases entries.len(),
{
    if entries.len() == 0 {
        0
    } else {
        let rest = scope_width(entries.drop_last());
        let last = encode_utf8(entries.last().scope@).len();
        if last > rest {
            last
        } else {
            rest
        }
    }
}

/// A text padded on the right with spaces up to `width` characters.
pub open spec fn padded(text: Seq<char>, width: nat) -> Seq<char> {
    if text.len() < width {
        text + spaces((width - text.len()) as nat)
    } else {
        text
    }
}

/// The line of one entry: the scope in brackets, padded to the column width,
/// the name, and where it comes from if that is known.
pub open spec fn entry_line(entry: ChainEntry, width: nat) -> Seq<char> {
    "["@ + padded(entry.scope@, width) + "] "@ + entry.display_name@ + match entry.source_name {
        Some(source) => "  (from: "@ + source@ + ")"@,
        None => Seq::empty(),
    } + "\n"@
}

/// The line between two entries: an arrow below the scope column.
pub open spec fn arrow_line(width: nat) -> Seq<char> {
    spaces(width + 3) + "↓\n"@
}

/// The lines of the entries, with an arrow line between neighbours.
pub open spec fn vertical_lines(entries: Seq<ChainEntry>, width: nat) -> Seq<char>
    decreases entries.len(),
{
    if entries.len() == 0 {
        Seq::empty()
    } else if entries.len() == 1 {
        entry_line(entries[0], width)
    } else {
        vertical_lines(entries.drop_last(), width) + arrow_line(width) + entry_line(
            entries.last(),
            width,
        )
    }
}

/// The greatest byte length of a scope among the entries.
fn widest_scope(entries: &[ChainEntry]) -> (width: usize)
    ensures
        width == scope_width(entries@),
{
    let n = entries.len();
    let mut width: usize = 0;
    let mut i: usize = 0;
    while i < n
        invariant
            n == entries@.len(),
            i <= n,
            width == scope_width(entries@.take(i as int)),
        decreases n - i,
    {
        proof {
            assert(entries@.take(i as int + 1).drop_last() =~= entries@.take(i as int));
        }
        let len = entries[i].scope.as_str().as_bytes().len();
        if len > width {
            width = len;
        }
        i = i + 1;
    }
    assert(entries@.take(n as int) =~= entries@);
    width
}

/// Appends the line of one entry to a text.
fn push_entry_line(rendered: &mut String, entry: &ChainEntry, width: usize)
    ensures
        final(rendered)@ == old(rendered)@ + entry_line(*entry, width as nat),
{
    push_text(rendered, "[");
    push_text(rendered, entry.scope.as_str());
    let shown = entry.scope.as_str().unicode_len();
    if shown < width {
        push_spaces(rendered, width - shown);
    }
    push_text(rendered, "] ");
    push_text(rendered, entry.display_name.as_str());
    let ghost named = rendered@;
    match &entry.source_name {
        Some(source) => {
            push_text(rendered, "  (from: ");
            push_text(rendered, source.as_str());
            push_text(rendered, ")");
        },
        None => {
            assert(rendered@ =~= named + Seq::<char>::empty());
        },
    }
    push_text(rendered, "\n");
}

/// Appends the line between two entries to a text.
fn push_arrow_line(rendered: &mut String, width: usize)
    ensures
        final(rendered)@ == old(rendered)@ + arrow_line(width as nat),
{
    push_spaces(rendered, width);
    push_spaces(rendered, 3);
    push_text(rendered, "↓\n");
}

/// Renders a dependency chain top to bottom, one entry per line, with the
/// scope of each entry in a column of its own.
pub fn render_chain_vertical(entries: &[ChainEntry]) -> (rendered: String)
    ensures
        rendered@ == vertical_lines(entries@, scope_width(entries@)),
{
    let width = widest_scope(entries);
    let n = entries.len();
    let mut rendered = String::new();
    let mut i: usize = 0;
    while i < n
        invariant
            n == entries@.len(),
            i <= n,
            rendered@ == vertical_lines(entries@.take(i as int), width as nat),
        decreases n - i,
    {
        proof {
            assert(entries@.take(i as int + 1).drop_last() =~= entries@.take(i as int));
        }
        if i > 0 {
            // Arrow between entries
            push_arrow_line(&mut rendered, width);
        }
        push_entry_line(&mut rendered, &entries[i], width);
        proof {
            if i == 0 {
                assert(rendered@ =~= entry_line(entries@[0], width as nat));
            }
        }
        i = i + 1;
    }
    assert(entries@.take(n as int) =~= entries@);
    rendered
}

/// Whether a character ends a path in a qualified name.
pub open spec fn is_separator(c: char) -> bool {
    c == '<' || c == '>' || c == ',' || c == ' '
}

/// What is left to write when position `i` of `name` is reached with the
/// characters `segment` read since the last `::` or separator: a `::` drops
/// the segment, a separator writes the segment and itself, any other character
/// joins the segment, and the end writes the segment.
pub open spec fn shortened_from(name: Seq<char>, i: int, segment: Seq<char>) -> Seq<char>
    decreases name.len() - i,
{
    if i < 0 || i >= name.len() {
        segment
    } else if name[i] == ':' && i + 1 < name.len() && name[i + 1] == ':' {
        shortened_from(name, i + 2, Seq::empty())
    } else if is_separator(name[i]) {
        (segment + seq![name[i]]) + shortened_from(name, i + 1, Seq::empty())
    } else {
        shortened_from(name, i + 1, segment.push(name[i]))
    }
}

/// A qualified name with every path cut down to its last segment.
pub open spec fn shortened(name: Seq<char>) -> Seq<char> {
    shortened_from(name, 0, Seq::empty())
}

/// A name without `::` is left as it is.
pub proof fn lemma_plain_name_is_kept(name: Seq<char>)
    requires
        forall|i: int| 0 <= i < name.len() - 1 ==> !(#[trigger] name[i] == ':' && name[i + 1] == ':'),
    ensures
        shortened(name) == name,
{
    lemma_plain_rest_is_kept(name, 0, Seq::empty());
}

proof fn lemma_plain_rest_is_kept(name: Seq<char>, i: int, segment: Seq<char>)
    requires
        0 <= i <= name.len(),
        forall|j: int| 0 <= j < name.len() - 1 ==> !(#[trigger] name[j] == ':' && name[j + 1] == ':'),
    ensures
        shortened_from(name, i, segment) == segment + name.subrange(i, name.len() as int),
    decreases name.len() - i,
{
    if i >= name.len() {
        assert(segment + name.subrange(i, name.len() as int) =~= segment);
    } else {
        if is_separator(name[i]) {
            lemma_plain_rest_is_kept(name, i + 1, Seq::empty());
        } else {
            lemma_plain_rest_is_kept(name, i + 1, segment.push(name[i]));
        }
    }
}

/// Shortens a fully qualified name for display: of every path, only the last
/// segment is kept.
pub fn shorten_type_name(full_name: &str) -> (short: String)
    ensures
        short@ == shortened(full_name@),
{
    let name = chars_of(full_name);
    let n = name.len();
    let mut result = String::new();
    let mut current_segment: Vec<char> = Vec::new();
    let mut i: usize = 0;
    while i < n
        invariant
            n == name@.len(),
            i <= n,
            name@ == full_name@,
            result@ + shortened_from(name@, i as int, current_segment@) == shortened(name@),
        decreases n - i,
    {
        let ch = name[i];
        if ch == ':' && i + 1 < n && name[i + 1] == ':' {
            // a path prefix ends here: drop it
            current_segment = Vec::new();
            i = i + 2;
        } else if ch == '<' || ch == '>' || ch == ',' || ch == ' ' {
            let ghost before = result@;
            push_chars(&mut result, &current_segment);
            push_char(&mut result, ch);
            proof {
                assert(result@ =~= before + (current_segment@ + seq![ch]));
            }
            current_segment = Vec::new();
            i = i + 1;
        } else {
            current_segment.push(ch);
            i = i + 1;
        }
    }
    push_chars(&mut result, &current_segment);
    result
}

/// A candidate name with its score: the higher, the more likely it is meant.
pub struct Scored {
    pub name: Seq<char>,
    pub score: nat,
}

/// The number of leading positions in which two texts agree.
pub open spec fn common_prefix(a: Seq<char>, b: Seq<char>) -> nat
    decreases a.len(),
{
    if a.len() == 0 || b.len() == 0 || a[0] != b[0] {
        0
    } else {
        1 + common_prefix(a.drop_first(), b.drop_first())
    }
}

/// The score of `name` as a candidate for `requested`, if it is one:
/// 100 where one of the two lower-cased names contains the other, 80 where
/// that holds of the shortened names, and ten times the length of the common
/// prefix of the shortened names where that is three characters or more.
pub open spec fn candidate_score(name: Seq<char>, requested: Seq<char>) -> Option<nat> {
    lowered_score(
        lowercase(name),
        lowercase(shortened(name)),
        lowercase(requested),
        lowercase(shortened(requested)),
    )
}

/// The score of a candidate from the lower-cased forms of its name and of
/// its shortened name, and those of the requested name: 100 where one of the
/// names contains the other, 80 where that holds of the shortened names, and
/// ten times the length of the common prefix of the shortened names where that
/// is three characters or more.
pub open spec fn lowered_score(
    name_lower: Seq<char>,
    name_short: Seq<char>,
    requested_lower: Seq<char>,
    requested_short: Seq<char>,
) -> Option<nat> {
    if is_substring(requested_lower, name_lower) || is_substring(name_lower, requested_lower) {
        Some(100)
    } else if is_substring(requested_short, name_short) || is_substring(
        name_short,
        requested_short,
    ) {
        Some(80)
    } else if common_prefix(name_short, requested_short) >= 3 {
        Some(common_prefix(name_short, requested_short) * 10)
    } else {
        None
    }
}

/// `ranked` with `item` put in its place: behind every candidate whose score
/// is not lower.
pub open spec fn inserted(ranked: Seq<Scored>, item: Scored) -> Seq<Scored>
    decreases ranked.len(),
{
    if ranked.len() == 0 {
        seq![item]
    } else if ranked.last().score >= item.score {
        ranked.push(item)
    } else {
        inserted(ranked.drop_last(), item).push(ranked.last())
    }
}

/// The candidates among `available`, highest score first; among candidates of
/// one score, the one listed first comes first.
pub open spec fn ranking(available: Seq<Seq<char>>, requested: Seq<char>) -> Seq<Scored>
    decreases available.len(),
{
    if available.len() == 0 {
        Seq::empty()
    } else {
        let rest = ranking(available.drop_last(), requested);
        match candidate_score(available.last(), requested) {
            Some(score) => inserted(rest, Scored { name: available.last(), score }),
            None => rest,
        }
    }
}

/// Whether scores do not rise along the sequence.
pub open spec fn descending(ranked: Seq<Scored>) -> bool {
    forall|i: int, j: int| 0 <= i <= j < ranked.len() ==> ranked[i].score >= ranked[j].score
}

/// Putting a candidate in its place keeps the scores descending.
pub proof fn lemma_inserted_descending(ranked: Seq<Scored>, item: Scored)
    requires
        descending(ranked),
    ensures
        descending(inserted(ranked, item)),
        inserted(ranked, item).len() == ranked.len() + 1,
        forall|i: int|
            0 <= i < inserted(ranked, item).len() ==> (#[trigger] inserted(ranked, item)[i]).score
                >= item.score || (ranked.len() > 0 && inserted(ranked, item)[i].score
                >= ranked.last().score),
    decreases ranked.len(),
{
    if ranked.len() > 0 && ranked.last().score < item.score {
        let front = ranked.drop_last();
        lemma_inserted_descending(front, item);
        let placed = inserted(front, item);
        let all = placed.push(ranked.last());
        assert forall|i: int, j: int| 0 <= i <= j < all.len() implies all[i].score
            >= all[j].score by {
            if j == all.len() - 1 && i < j {
                if placed[i].score < item.score {
                    assert(front.len() > 0);
                }
            }
        }
    }
}

/// The ranking never rises: a later suggestion never has a higher score.
pub proof fn lemma_ranking_descending(available: Seq<Seq<char>>, requested: Seq<char>)
    ensures
        descending(ranking(available, requested)),
    decreases available.len(),
{
    if available.len() > 0 {
        lemma_ranking_descending(available.drop_last(), requested);
        if let Some(score) = candidate_score(available.last(), requested) {
            lemma_inserted_descending(
                ranking(available.drop_last(), requested),
                Scored { name: available.last(), score },
            );
        }
    }
}

/// The candidates among `available` with their scores, in the order in which
/// they are listed.
pub open spec fn candidates(available: Seq<Seq<char>>, requested: Seq<char>) -> Seq<Scored>
    decreases available.len(),
{
    if available.len() == 0 {
        Seq::empty()
    } else {
        let rest = candidates(available.drop_last(), requested);
        match candidate_score(available.last(), requested) {
            Some(score) => rest.push(Scored { name: available.last(), score }),
            None => rest,
        }
    }
}

/// Putting a candidate in its place adds it and keeps all the others.
pub proof fn lemma_inserted_keeps_all(ranked: Seq<Scored>, item: Scored)
    ensures
        inserted(ranked, item).to_multiset() == ranked.to_multiset().insert(item),
    decreases ranked.len(),
{
    if ranked.len() == 0 {
        assert(seq![item] =~= ranked.push(item));
        vstd::seq_lib::to_multiset_build(ranked, item);
    } else if ranked.last().score >= item.score {
        vstd::seq_lib::to_multiset_build(ranked, item);
    } else {
        let front = ranked.drop_last();
        lemma_inserted_keeps_all(front, item);
        vstd::seq_lib::to_multiset_build(inserted(front, item), ranked.last());
        vstd::seq_lib::to_multiset_build(front, ranked.last());
        assert(front.push(ranked.last()) =~= ranked);
    }
}

/// The ranking holds every candidate once: it is the candidates in another
/// order.
pub proof fn lemma_ranking_keeps_candidates(available: Seq<Seq<char>>, requested: Seq<char>)
    ensures
        ranking(available, requested).to_multiset() == candidates(available, requested).to_multiset(),
    decreases available.len(),
{
    if available.len() > 0 {
        lemma_ranking_keeps_candidates(available.drop_last(), requested);
        if let Some(score) = candidate_score(available.last(), requested) {
            let item = Scored { name: available.last(), score };
            lemma_inserted_keeps_all(ranking(available.drop_last(), requested), item);
            vstd::seq_lib::to_multiset_build(candidates(available.drop_last(), requested), item);
        }
    }
}

/// The names of the first `count` candidates of a ranking, or of all of them
/// where there are fewer.
pub open spec fn leading_names(ranked: Seq<Scored>, count: nat) -> Seq<Seq<char>> {
    Seq::new(
        if count < ranked.len() {
            count
        } else {
            ranked.len()
        },
        |i: int| ranked[i].name,
    )
}

/// A candidate as the program holds it: the name and its score.
struct Candidate<'a> {
    name: &'a str,
    score: u128,
}

impl<'a> Candidate<'a> {
    spec fn scored(self) -> Scored {
        Scored { name: self.name@, score: self.score as nat }
    }
}

spec fn scored_of<'a>(candidates: Seq<Candidate<'a>>) -> Seq<Scored> {
    candidates.map_values(|c: Candidate<'a>| c.scored())
}

/// The number of leading positions in which two texts agree.
fn common_prefix_len(a: &Vec<char>, b: &Vec<char>) -> (n: usize)
    ensures
        n == common_prefix(a@, b@),
{
    let mut n: usize = 0;
    proof {
        assert(a@.skip(0) =~= a@);
        assert(b@.skip(0) =~= b@);
    }
    while n < a.len() && n < b.len() && a[n] == b[n]
        invariant
            n <= a.len(),
            n <= b.len(),
            common_prefix(a@, b@) == n + common_prefix(a@.skip(n as int), b@.skip(n as int)),
        decreases a.len() - n,
    {
        proof {
            let x = a@.skip(n as int);
            let y = b@.skip(n as int);
            assert(x.drop_first() =~= a@.skip(n as int + 1));
            assert(y.drop_first() =~= b@.skip(n as int + 1));
        }
        n = n + 1;
    }
    proof {
        let x = a@.skip(n as int);
        let y = b@.skip(n as int);
        if n < a.len() && n < b.len() {
            assert(x[0] == a@[n as int] && y[0] == b@[n as int]);
        }
    }
    n
}

/// The score of a candidate from the lower-cased forms of its name and of
/// its shortened name, and those of the requested name.
pub fn score_lowered(
    name_lower: &str,
    name_short: &str,
    requested_lower: &str,
    requested_short: &str,
) -> (score: Option<u128>)
    ensures
        match lowered_score(name_lower@, name_short@, requested_lower@, requested_short@) {
            Some(s) => score == Some(s as u128) && s <= u128::MAX,
            None => score is None,
        },
{
    // One full name contains the other
    if str_contains(name_lower, requested_lower) || str_contains(requested_lower, name_lower) {
        return Some(100);
    }
    // One short name contains the other
    if str_contains(name_short, requested_short) || str_contains(requested_short, name_short) {
        return Some(80);
    }
    // Common prefix
    let a = chars_of(name_short);
    let b = chars_of(requested_short);
    let common = common_prefix_len(&a, &b);
    if common >= 3 {
        return Some((common as u128) * 10);
    }
    None
}

/// The score of `name` as a candidate for the request, if it is one.
fn score_of(name: &str, requested_lower: &str, requested_short: &str) -> (score: Option<u128>)
    ensures
        forall|requested: Seq<char>|
            requested_lower@ == lowercase(requested) && requested_short@ == lowercase(
                shortened(requested),
            ) ==> match #[trigger] candidate_score(name@, requested) {
                Some(s) => score == Some(s as u128) && s <= u128::MAX,
                None => score is None,
            },
{
    let name_lower = to_lowercase(name);
    let short = shorten_type_name(name);
    let name_short = to_lowercase(short.as_str());
    score_lowered(name_lower.as_str(), name_short.as_str(), requested_lower, requested_short)
}

/// Where `item` goes among `ranked`: behind every candidate whose score is not
/// lower.
proof fn lemma_inserted_at(ranked: Seq<Scored>, item: Scored, at: int)
    requires
        0 <= at <= ranked.len(),
        forall|i: int| at <= i < ranked.len() ==> (#[trigger] ranked[i]).score < item.score,
        at > 0 ==> ranked[at - 1].score >= item.score,
    ensures
        inserted(ranked, item) == ranked.insert(at, item),
    decreases ranked.len(),
{
    if ranked.len() == 0 {
        assert(ranked.insert(at, item) =~= seq![item]);
    } else if at == ranked.len() {
        assert(ranked.insert(at, item) =~= ranked.push(item));
    } else {
        lemma_inserted_at(ranked.drop_last(), item, at);
    }
}

/// Suggests the available names that are most likely meant by `requested`:
/// at most `max_suggestions` of them, the most likely first.
pub fn suggest_similar(requested: &str, available: &[&str], max_suggestions: usize) -> (suggestions:
    Vec<String>)
    ensures
        suggestions@.map_values(|s: String| s@) == leading_names(
            ranking(texts_of(available@), requested@),
            max_suggestions as nat,
        ),
{
    let requested_lower = to_lowercase(requested);
    let requested_shortened = shorten_type_name(requested);
    let requested_short = to_lowercase(requested_shortened.as_str());
    let ghost names = texts_of(available@);
    let n = available.len();
    let mut scored: Vec<Candidate> = Vec::new();
    let mut i: usize = 0;
    while i < n
        invariant
            n == available@.len(),
            i <= n,
            names == texts_of(available@),
            requested_lower@ == lowercase(requested@),
            requested_short@ == lowercase(shortened(requested@)),
            scored_of(scored@) == ranking(names.take(i as int), requested@),
        decreases n - i,
    {
        let name = available[i];
        proof {
            assert(names.take(i as int + 1).drop_last() =~= names.take(i as int));
        }
        match score_of(name, requested_lower.as_str(), requested_short.as_str()) {
            Some(score) => {
                let ghost item = Scored { name: name@, score: score as nat };
                let ghost before = scored_of(scored@);
                let ghost held = scored@;
                let mut at: usize = scored.len();
                while at > 0 && scored[at - 1].score < score
                    invariant
                        at <= scored@.len(),
                        forall|j: int|
                            at <= j < scored@.len() ==> (#[trigger] scored@[j]).score < score,
                    decreases at,
                {
                    at = at - 1;
                }
                proof {
                    assert forall|j: int| at <= j < before.len() implies (#[trigger] before[j]).score
                        < item.score by {
                        assert(before[j] == held[j].scored());
                    }
                    if at > 0 {
                        assert(before[at - 1] == held[at - 1].scored());
                    }
                    lemma_inserted_at(before, item, at as int);
                }
                scored.insert(at, Candidate { name, score });
                proof {
                    assert(scored_of(scored@) =~= before.insert(at as int, item));
                }
            },
            None => {},
        }
        i = i + 1;
    }
    assert(names.take(n as int) =~= names);
    let ghost ranked = scored_of(scored@);
    let count = if max_suggestions < scored.len() {
        max_suggestions
    } else {
        scored.len()
    };
    let mut suggestions: Vec<String> = Vec::new();
    let mut k: usize = 0;
    while k < count
        invariant
            count <= scored@.len(),
            k <= count,
            ranked == scored_of(scored@),
            suggestions@.len() == k,
            forall|j: int| 0 <= j < k ==> (#[trigger] suggestions@[j])@ == ranked[j].name,
        decreases count - k,
    {
        let mut text = String::new();
        push_text(&mut text, scored[k].name);
        suggestions.push(text);
        k = k + 1;
    }
    suggestions
}

} // verus!
