//! What the migrations directory holds, as text.
//!
//! At its top level the directory has a lock file that names the provider the
//! migrations were written for. Each migration has a directory of its own,
//! named after the time it was created and the name it was given, with the
//! migration script in it. This module makes and reads those names and
//! texts; it touches no file.

use crate::text::{chars_le, chars_of, lemma_text_le_reflexive, lemma_text_le_total, strings_of, text_le};
use vstd::prelude::*;

verus! {

/// The file name of a migration script, without the extension.
pub const MIGRATION_SCRIPT_FILENAME: &'static str = "migration";

/// The file name of the lock file, without the extension.
pub const MIGRATION_LOCK_FILENAME: &'static str = "migration_lock";

/// The name of the directory of a migration: the time it is created at, an
/// underscore, and its name.
pub fn migration_directory_name(timestamp: &str, migration_name: &str) -> (res: String)
    ensures
        res@ == timestamp@ + "_"@ + migration_name@,
{
    let mut res = String::from_str(timestamp);
    res.append("_");
    res.append(migration_name);
    res
}

/// The name of a file: its stem, a dot, and its extension.
pub fn file_name(stem: &str, extension: &str) -> (res: String)
    ensures
        res@ == stem@ + "."@ + extension@,
{
    let mut res = String::from_str(stem);
    res.append(".");
    res.append(extension);
    res
}

/// What the lock file says before the provider's name.
pub open spec fn lock_file_head() -> Seq<char> {
    "# Please do not edit this file manually\n# It should be added in your version-control system (i.e. Git)\nprovider = \""@
}

/// The text of the lock file for a provider.
pub fn migration_lock_file_content(provider: &str) -> (res: String)
    ensures
        res@ == lock_file_head() + provider@ + "\""@,
{
    let mut res = String::from_str(
        "# Please do not edit this file manually\n# It should be added in your version-control system (i.e. Git)\nprovider = \"",
    );
    res.append(provider);
    res.append("\"");
    res
}

/// Whether a text begins with another.
pub open spec fn starts_with(s: Seq<char>, prefix: Seq<char>) -> bool {
    prefix.len() <= s.len() && s.subrange(0, prefix.len() as int) == prefix
}

/// Where the line that holds position `from` ends: at the next line feed, or at
/// the end of the text.
pub open spec fn line_end(s: Seq<char>, from: int) -> int
    decreases s.len() - from,
{
    if from < 0 || from >= s.len() {
        s.len() as int
    } else if s[from] == '\n' {
        from
    } else {
        line_end(s, from + 1)
    }
}

/// Where the text of the line from `from` stops: at its end, or one before
/// where the line ends in a carriage return and a line feed.
pub open spec fn line_stop(s: Seq<char>, from: int) -> int {
    let end = line_end(s, from);
    if end < s.len() && from < end && s[end - 1] == '\r' {
        end - 1
    } else {
        end
    }
}

/// The line that starts at `from`, without what ends it.
pub open spec fn line_at(s: Seq<char>, from: int) -> Seq<char> {
    s.subrange(from, line_stop(s, from))
}

/// Whether a line starts at a position: at the start of the text, and behind
/// every line feed.
pub open spec fn is_line_start(s: Seq<char>, at: int) -> bool {
    at == 0 || s[at - 1] == '\n'
}

/// The first line at or behind `from` that begins with `prefix`.
pub open spec fn find_line(s: Seq<char>, from: int, prefix: Seq<char>) -> Option<Seq<char>>
    decreases s.len() - from,
{
    if from < 0 || from >= s.len() {
        None
    } else if is_line_start(s, from) && starts_with(line_at(s, from), prefix) {
        Some(line_at(s, from))
    } else {
        find_line(s, from + 1, prefix)
    }
}

/// A text without the copies of `prefix` it begins with.
pub open spec fn trim_start_matches(s: Seq<char>, prefix: Seq<char>) -> Seq<char>
    decreases s.len(),
{
    if prefix.len() > 0 && starts_with(s, prefix) {
        trim_start_matches(s.skip(prefix.len() as int), prefix)
    } else {
        s
    }
}

/// A text without the copies of `c` it begins with.
pub open spec fn trim_start_char(s: Seq<char>, c: char) -> Seq<char>
    decreases s.len(),
{
    if s.len() > 0 && s[0] == c {
        trim_start_char(s.skip(1), c)
    } else {
        s
    }
}

/// A text without the copies of `c` it ends with.
pub open spec fn trim_end_char(s: Seq<char>, c: char) -> Seq<char>
    decreases s.len(),
{
    if s.len() > 0 && s.last() == c {
        trim_end_char(s.drop_last(), c)
    } else {
        s
    }
}

/// A text without the copies of `c` at either end.
pub open spec fn trim_matches(s: Seq<char>, c: char) -> Seq<char> {
    trim_end_char(trim_start_char(s, c), c)
}

/// The provider that a lock file names: what the first line that begins with
/// `provider` holds behind `provider = `, without the quotes around it. A lock
/// file without such a line names no provider.
pub open spec fn provider_in_lock_file(content: Seq<char>) -> Seq<char> {
    match find_line(content, 0, "provider"@) {
        Some(line) => trim_matches(trim_start_matches(line, "provider = "@), '"'),
        None => "<PROVIDER NOT FOUND>"@,
    }
}

proof fn lemma_line_end_bounds(s: Seq<char>, from: int)
    requires
        0 <= from <= s.len(),
    ensures
        from <= line_end(s, from) <= s.len(),
        line_end(s, from) < s.len() ==> s[line_end(s, from)] == '\n',
        forall|k: int| from <= k < line_end(s, from) ==> s[k] != '\n',
    decreases s.len() - from,
{
    if from < s.len() && s[from] != '\n' {
        lemma_line_end_bounds(s, from + 1);
    }
}

proof fn lemma_find_line_skips(s: Seq<char>, from: int, to: int, prefix: Seq<char>)
    requires
        0 <= from <= to <= s.len(),
        forall|k: int| from <= k < to ==> !is_line_start(s, k),
    ensures
        find_line(s, from, prefix) == find_line(s, to, prefix),
    decreases to - from,
{
    if from < to {
        lemma_find_line_skips(s, from + 1, to, prefix);
    }
}

fn starts_with_at(chars: &Vec<char>, from: usize, stop: usize, prefix: &Vec<char>) -> (res: bool)
    requires
        from <= stop <= chars@.len(),
    ensures
        res == starts_with(chars@.subrange(from as int, stop as int), prefix@),
{
    let ghost s = chars@.subrange(from as int, stop as int);
    if prefix.len() > stop - from {
        return false;
    }
    let mut k: usize = 0;
    while k < prefix.len()
        invariant
            k <= prefix@.len() <= stop - from,
            from <= stop <= chars@.len(),
            s == chars@.subrange(from as int, stop as int),
            forall|j: int| 0 <= j < k ==> s[j] == prefix@[j],
        decreases prefix@.len() - k,
    {
        if chars[from + k] != prefix[k] {
            assert(s.subrange(0, prefix@.len() as int)[k as int] != prefix@[k as int]);
            return false;
        }
        k += 1;
    }
    assert(s.subrange(0, prefix@.len() as int) =~= prefix@);
    true
}

/// Finds the first line that begins with `prefix`: where it starts and where
/// its text stops.
fn find_line_in(chars: &Vec<char>, prefix: &Vec<char>) -> (res: Option<(usize, usize)>)
    ensures
        match res {
            Some((start, stop)) => start <= stop <= chars@.len() && find_line(chars@, 0, prefix@) == Some(
                chars@.subrange(start as int, stop as int),
            ),
            None => find_line(chars@, 0, prefix@) is None,
        },
{
    let n = chars.len();
    let mut from: usize = 0;
    while from < n
        invariant
            from <= n == chars@.len(),
            is_line_start(chars@, from as int),
            find_line(chars@, 0, prefix@) == find_line(chars@, from as int, prefix@),
        decreases n - from,
    {
        let mut end: usize = from;
        while end < n && chars[end] != '\n'
            invariant
                from <= end <= n == chars@.len(),
                line_end(chars@, from as int) == line_end(chars@, end as int),
            decreases n - end,
        {
            end += 1;
        }
        let stop = if end < n && from < end && chars[end - 1] == '\r' {
            end - 1
        } else {
            end
        };
        proof {
            lemma_line_end_bounds(chars@, from as int);
            assert(line_end(chars@, from as int) == end);
            assert(line_stop(chars@, from as int) == stop);
        }
        if starts_with_at(chars, from, stop, prefix) {
            return Some((from, stop));
        }
        if end == n {
            proof {
                lemma_find_line_skips(chars@, from as int + 1, n as int, prefix@);
            }
            return None;
        }
        proof {
            lemma_find_line_skips(chars@, from as int + 1, end as int + 1, prefix@);
        }
        from = end + 1;
    }
    None
}

/// Narrows a range of the text to the provider it names.
fn provider_range(chars: &Vec<char>, start: usize, stop: usize) -> (res: (usize, usize))
    requires
        start <= stop <= chars@.len(),
    ensures
        res.0 <= res.1 <= chars@.len(),
        chars@.subrange(res.0 as int, res.1 as int) == trim_matches(
            trim_start_matches(chars@.subrange(start as int, stop as int), "provider = "@),
            '"',
        ),
{
    let prefix = chars_of("provider = ");
    let mut a = start;
    let mut b = stop;
    proof {
        reveal_strlit("provider = ");
    }
    while starts_with_at(chars, a, b, &prefix)
        invariant
            start <= a <= b == stop <= chars@.len(),
            prefix@ == "provider = "@,
            prefix@.len() == 11,
            trim_start_matches(chars@.subrange(start as int, stop as int), prefix@) == trim_start_matches(
                chars@.subrange(a as int, b as int),
                prefix@,
            ),
        decreases b - a,
    {
        assert(chars@.subrange(a as int, b as int).skip(prefix@.len() as int) =~= chars@.subrange(
            a + prefix@.len(),
            b as int,
        ));
        a += prefix.len();
    }
    let ghost untrimmed = chars@.subrange(a as int, b as int);
    assert(trim_start_matches(chars@.subrange(start as int, stop as int), prefix@) == untrimmed);
    while a < b && chars[a] == '"'
        invariant
            a <= b <= chars@.len(),
            trim_start_char(untrimmed, '"') == trim_start_char(chars@.subrange(a as int, b as int), '"'),
        decreases b - a,
    {
        assert(chars@.subrange(a as int, b as int).skip(1) =~= chars@.subrange(a + 1, b as int));
        a += 1;
    }
    let ghost front_trimmed = chars@.subrange(a as int, b as int);
    assert(trim_start_char(untrimmed, '"') == front_trimmed);
    while a < b && chars[b - 1] == '"'
        invariant
            a <= b <= chars@.len(),
            trim_end_char(front_trimmed, '"') == trim_end_char(chars@.subrange(a as int, b as int), '"'),
        decreases b - a,
    {
        assert(chars@.subrange(a as int, b as int).drop_last() =~= chars@.subrange(a as int, b - 1));
        b -= 1;
    }
    (a, b)
}

/// Reads the provider that a lock file names.
pub fn found_provider(content: &str) -> (res: String)
    ensures
        res@ == provider_in_lock_file(content@),
{
    let chars = chars_of(content);
    let prefix = chars_of("provider");
    match find_line_in(&chars, &prefix) {
        Some((start, stop)) => {
            let (a, b) = provider_range(&chars, start, stop);
            String::from_str(content.substring_char(a, b))
        },
        None => String::from_str("<PROVIDER NOT FOUND>"),
    }
}

/// Checks a provider against the lock file.
///
/// Without a lock file there is nothing to check. With one, the provider
/// either is the one the lock file names, or the result holds the one it
/// names.
pub fn match_provider_in_lock_file(content: Option<&str>, provider: &str) -> (res: Option<
    Result<(), String>,
>)
    ensures
        match content {
            None => res is None,
            Some(content) => match res {
                Some(Ok(())) => provider_in_lock_file(content@) == provider@,
                Some(Err(found)) => found@ == provider_in_lock_file(content@) && found@ != provider@,
                None => false,
            },
        },
{
    match content {
        None => None,
        Some(content) => {
            let found = found_provider(content);
            if found == String::from_str(provider) {
                Some(Ok(()))
            } else {
                Some(Err(found))
            }
        },
    }
}

/// The provider of a schema is not the one its migrations were written for.
#[derive(Debug)]
pub struct ProviderSwitchedError {
    /// The provider of the schema.
    pub provider: String,
    /// The provider that the lock file names.
    pub expected_provider: String,
}

/// Fails where the provider of the schema is not the one the lock file names.
pub fn error_on_changed_provider(content: Option<&str>, provider: &str) -> (res: Result<
    (),
    ProviderSwitchedError,
>)
    ensures
        match content {
            None => res is Ok,
            Some(content) => match res {
                Ok(()) => provider_in_lock_file(content@) == provider@,
                Err(error) => error.provider@ == provider@ && error.expected_provider@
                    == provider_in_lock_file(content@) && provider_in_lock_file(content@) != provider@,
            },
        },
{
    match match_provider_in_lock_file(content, provider) {
        None => Ok(()),
        Some(Err(expected_provider)) => Err(
            ProviderSwitchedError { provider: String::from_str(provider), expected_provider },
        ),
        Some(Ok(())) => Ok(()),
    }
}

/// Whether `order` lists each of the places `0..n` once.
pub open spec fn is_permutation(order: Seq<usize>, n: nat) -> bool {
    &&& order.len() == n
    &&& forall|i: int| 0 <= i < order.len() ==> (#[trigger] order[i]) < n
    &&& forall|i: int, j: int| 0 <= i < j < order.len() ==> #[trigger] order[i] != #[trigger] order[j]
}

/// Whether the names, read in `order`, never go down.
pub open spec fn sorted_by_name(names: Seq<Seq<char>>, order: Seq<usize>) -> bool {
    forall|i: int|
        0 <= i && i + 1 < order.len() ==> text_le(
            names[(#[trigger] order[i]) as int],
            names[order[i + 1] as int],
        )
}

/// Whether equal names keep, in `order`, the order of their places.
pub open spec fn keeps_equal_names_in_place(names: Seq<Seq<char>>, order: Seq<usize>) -> bool {
    forall|i: int, j: int|
        0 <= i < j < order.len() && names[(#[trigger] order[i]) as int] == names[(
        #[trigger] order[j]) as int] ==> order[i] < order[j]
}

/// The order in which migrations are listed: by name, in the order of
/// strings, and migrations of one name in the order they came in.
///
/// The result lists the places of `names`: the name at the first place of the
/// result comes first.
pub fn migration_order(names: &Vec<String>) -> (order: Vec<usize>)
    ensures
        is_permutation(order@, names@.len()),
        sorted_by_name(strings_of(names@), order@),
        keeps_equal_names_in_place(strings_of(names@), order@),
{
    let n = names.len();
    let ghost texts = strings_of(names@);
    let mut keys: Vec<Vec<char>> = Vec::new();
    let mut k: usize = 0;
    while k < n
        invariant
            k <= n == names@.len(),
            texts == strings_of(names@),
            keys@.len() == k,
            forall|i: int| 0 <= i < k ==> (#[trigger] keys@[i])@ == texts[i],
        decreases n - k,
    {
        keys.push(chars_of(names[k].as_str()));
        k += 1;
    }
    let mut order: Vec<usize> = Vec::new();
    let mut i: usize = 0;
    while i < n
        invariant
            i <= n == names@.len(),
            texts.len() == n,
            keys@.len() == n,
            forall|p: int| 0 <= p < n ==> (#[trigger] keys@[p])@ == texts[p],
            is_permutation(order@, i as nat),
            sorted_by_name(texts, order@),
            keeps_equal_names_in_place(texts, order@),
        decreases n - i,
    {
        order.push(i);
        let mut j: usize = i;
        while j > 0 && !chars_le(&keys[order[j - 1]], &keys[order[j]])
            invariant
                j <= i < n,
                texts.len() == n,
                keys@.len() == n,
                forall|p: int| 0 <= p < n ==> (#[trigger] keys@[p])@ == texts[p],
                order@.len() == i + 1,
                order@[j as int] == i,
                forall|p: int| 0 <= p < order@.len() ==> (#[trigger] order@[p]) <= i,
                forall|p: int, q: int|
                    0 <= p < q < order@.len() ==> #[trigger] order@[p] != #[trigger] order@[q],
                forall|p: int|
                    0 <= p && p + 1 < order@.len() && p + 1 != j ==> text_le(
                        texts[(#[trigger] order@[p]) as int],
                        texts[order@[p + 1] as int],
                    ),
                0 < j && j < i ==> text_le(texts[order@[j - 1] as int], texts[order@[j + 1] as int]),
                forall|p: int, q: int|
                    0 <= p < q < order@.len() && texts[(#[trigger] order@[p]) as int] == texts[(
                    #[trigger] order@[q]) as int] ==> (order@[p] < order@[q] || (p == j && q > j)),
                forall|q: int|
                    j < q < order@.len() ==> texts[(#[trigger] order@[q]) as int] != texts[i as int],
            decreases j,
        {
            let ghost before = order@;
            let moved = order[j];
            let other = order[j - 1];
            proof {
                lemma_text_le_total(texts[other as int], texts[moved as int]);
                lemma_text_le_reflexive(texts[moved as int]);
                assert(texts[other as int] != texts[moved as int]);
            }
            order.set(j, other);
            order.set(j - 1, moved);
            j -= 1;
            assert forall|p: int, q: int|
                0 <= p < q < order@.len() && texts[(#[trigger] order@[p]) as int] == texts[(
                #[trigger] order@[q]) as int] implies (order@[p] < order@[q] || (p == j && q > j)) by {
                if p == j {
                } else if q == j {
                    assert(before[p] == order@[p]);
                    assert(before[j + 1] == order@[q]);
                } else if p == j + 1 {
                    assert(before[j as int] == order@[p]);
                    assert(before[q] == order@[q]);
                } else if q == j + 1 {
                    assert(before[p] == order@[p]);
                    assert(before[j as int] == order@[q]);
                } else {
                    assert(before[p] == order@[p]);
                    assert(before[q] == order@[q]);
                }
            }
            assert forall|q: int| j < q < order@.len() implies texts[(#[trigger] order@[q]) as int]
                != texts[i as int] by {
                if q > j + 1 {
                    assert(before[q] == order@[q]);
                }
            }
            assert forall|p: int|
                0 <= p && p + 1 < order@.len() && p + 1 != j implies text_le(
                texts[(#[trigger] order@[p]) as int],
                texts[order@[p + 1] as int],
            ) by {
                if p == j {
                } else if p == j + 1 {
                    assert(before[p + 1] == order@[p + 1]);
                } else {
                    assert(before[p] == order@[p]);
                    assert(before[p + 1] == order@[p + 1]);
                }
            }
        }
        proof {
            if j > 0 {
                assert(text_le(texts[order@[j - 1] as int], texts[order@[j as int] as int]));
            }
            assert(is_permutation(order@, (i + 1) as nat));
            assert forall|p: int, q: int|
                0 <= p < q < order@.len() && texts[(#[trigger] order@[p]) as int] == texts[(
                #[trigger] order@[q]) as int] implies order@[p] < order@[q] by {
                if p == j && q > j {
                    assert(texts[order@[q] as int] != texts[i as int]);
                }
            }
        }
        i += 1;
    }
    order
}

} // verus!
