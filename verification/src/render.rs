//! Textual dump of a container: `{key: value, key: value}`, entries in the
//! order given.
use std::fmt::Write;
use vstd::prelude::*;
use vstd::string::StringExecFns;

verus! {

/// The text of one entry: the key, a colon, a space, the value.
pub open spec fn spec_entry(entry: (Seq<char>, Seq<char>)) -> Seq<char> {
    entry.0 + ": "@ + entry.1
}

/// The entries in order, separated by a comma and a space.
pub open spec fn spec_entries(entries: Seq<(Seq<char>, Seq<char>)>) -> Seq<char>
    decreases entries.len(),
{
    if entries.len() == 0 {
        Seq::empty()
    } else if entries.len() == 1 {
        spec_entry(entries[0])
    } else {
        spec_entries(entries.drop_last()) + ", "@ + spec_entry(entries.last())
    }
}

/// The whole dump: the entries between braces.
pub open spec fn spec_render(entries: Seq<(Seq<char>, Seq<char>)>) -> Seq<char> {
    "{"@ + spec_entries(entries) + "}"@
}

/// The texts that a vector of string pairs holds.
pub open spec fn spec_texts(entries: Seq<(String, String)>) -> Seq<(Seq<char>, Seq<char>)> {
    Seq::new(entries.len(), |i: int| (entries[i].0@, entries[i].1@))
}

/// Writes `value` with `{:?}` into a fresh `String` through the standard
/// library's `write!`, which hands it to the `Debug` implementation of `T`
/// and passes on the error that the implementation may report. Which text
/// comes back, and whether one does, is up to that implementation, so
/// nothing is claimed of it.
#[verifier::external_body]
fn debug_text<T: std::fmt::Debug>(value: &T) -> (text: Option<String>) {
    let mut written = String::new();
    match write!(written, "{:?}", value) {
        Ok(()) => Some(written),
        Err(_) => None,
    }
}

/// `text` is a text that formatting `value` with `{:?}` may give.
pub closed spec fn is_debug_text<T: std::fmt::Debug>(value: T, text: Seq<char>) -> bool {
    exists|written: String|
        written@ == text && call_ensures(debug_text::<T>, (&value,), Some(written))
}

/// Formatting `value` with `{:?}` may report an error.
pub closed spec fn is_debug_failure<T: std::fmt::Debug>(value: T) -> bool {
    call_ensures(debug_text::<T>, (&value,), None::<String>)
}

/// Formats `value` with `{:?}`: a debug text of `value`, or `None` where its
/// `Debug` implementation reports an error.
pub fn debug_text_of<T: std::fmt::Debug>(value: &T) -> (text: Option<String>)
    ensures
        match text {
            Some(written) => is_debug_text(*value, written@),
            None => is_debug_failure(*value),
        },
{
    let format = debug_text::<T>;
    format(value)
}

/// `text` is a dump of the entries that pair `keys[i]` with `values[i]`:
/// it renders, in that order, one entry per key, made of a debug text of the
/// key and a debug text of its value.
pub open spec fn spec_dumps<K: std::fmt::Debug, V: std::fmt::Debug>(
    keys: Seq<K>,
    values: Seq<V>,
    text: Seq<char>,
) -> bool {
    exists|entries: Seq<(Seq<char>, Seq<char>)>|
        {
            &&& entries.len() == keys.len()
            &&& text == spec_render(entries)
            &&& forall|i: int|
                0 <= i < keys.len() ==> is_debug_text(keys[i], (#[trigger] entries[i]).0)
                    && is_debug_text(values[i], entries[i].1)
        }
}

/// Formatting one of `keys` or one of `values` with `{:?}` may report an
/// error.
pub open spec fn spec_dump_fails<K: std::fmt::Debug, V: std::fmt::Debug>(
    keys: Seq<K>,
    values: Seq<V>,
) -> bool {
    exists|i: int|
        0 <= i < keys.len() && (is_debug_failure(#[trigger] keys[i]) || is_debug_failure(
            values[i],
        ))
}

/// Renders key and value texts as a map dump, keeping their order.
pub fn render_map(entries: &Vec<(String, String)>) -> (text: String)
    ensures
        text@ == spec_render(spec_texts(entries@)),
{
    let ghost texts = spec_texts(entries@);
    let mut body = String::new();
    let mut i: usize = 0;
    while i < entries.len()
        invariant
            i <= entries.len(),
            texts == spec_texts(entries@),
            body@ == spec_entries(texts.take(i as int)),
        decreases entries.len() - i,
    {
        proof {
            let done = texts.take(i as int + 1);
            assert(done.drop_last() =~= texts.take(i as int));
            assert(done.last() == texts[i as int]);
            assert(texts[i as int] == (entries@[i as int].0@, entries@[i as int].1@));
        }
        if i > 0 {
            body.append(", ");
        }
        body.append(entries[i].0.as_str());
        body.append(": ");
        body.append(entries[i].1.as_str());
        proof {
            let done = texts.take(i as int + 1);
            assert(body@ =~= spec_entries(done));
        }
        i += 1;
    }
    proof {
        assert(texts.take(entries.len() as int) =~= texts);
    }
    let mut text = String::from_str("{");
    text.append(body.as_str());
    text.append("}");
    text
}

} // verus!
