//! The substitution of defined variables.

use vstd::prelude::*;

verus! {

/// Whether a character is white space.
pub open spec fn is_white(c: char) -> bool {
    let n = c as int;
    ||| 0x9 <= n <= 0xD
    ||| n == 0x20
    ||| n == 0x85
    ||| n == 0xA0
    ||| n == 0x1680
    ||| 0x2000 <= n <= 0x200A
    ||| n == 0x2028
    ||| n == 0x2029
    ||| n == 0x202F
    ||| n == 0x205F
    ||| n == 0x3000
}

/// A text without the white space at its start.
pub open spec fn trimmed_start(s: Seq<char>) -> Seq<char>
    decreases s.len(),
{
    if s.len() > 0 && is_white(s[0]) {
        trimmed_start(s.drop_first())
    } else {
        s
    }
}

/// A text without the white space at its end.
pub open spec fn trimmed_end(s: Seq<char>) -> Seq<char>
    decreases s.len(),
{
    if s.len() > 0 && is_white(s.last()) {
        trimmed_end(s.drop_last())
    } else {
        s
    }
}

/// A text without the white space at its start and at its end.
pub open spec fn trimmed(s: Seq<char>) -> Seq<char> {
    trimmed_end(trimmed_start(s))
}

/// Whether a text holds another.
pub open spec fn holds(s: Seq<char>, part: Seq<char>) -> bool {
    exists|i: int|
        0 <= i <= s.len() - part.len() && #[trigger] s.subrange(i, i + part.len()) == part
}

/// A text with `with` before every character and at its end.
pub open spec fn interleaved(s: Seq<char>, with: Seq<char>) -> Seq<char>
    decreases s.len(),
{
    if s.len() == 0 {
        with
    } else {
        with + seq![s[0]] + interleaved(s.drop_first(), with)
    }
}

/// A text with `with` in place of every `part`, from the start on. An empty `part` is found before
/// every character and at the end.
pub open spec fn replaced(s: Seq<char>, part: Seq<char>, with: Seq<char>) -> Seq<char>
    decreases s.len(),
{
    if part.len() == 0 {
        interleaved(s, with)
    } else if s.len() < part.len() {
        s
    } else if s.take(part.len() as int) == part {
        with + replaced(s.skip(part.len() as int), part, with)
    } else {
        seq![s[0]] + replaced(s.drop_first(), part, with)
    }
}

/// A text after the first `n` definitions: each key that it holds at its turn is replaced.
pub open spec fn resolved(s: Seq<char>, defines: Seq<(String, String)>, n: int) -> Seq<char>
    decreases n,
{
    if n <= 0 {
        s
    } else {
        let before = resolved(s, defines, n - 1);
        replaced(before, defines[n - 1].0@, defines[n - 1].1@)
    }
}

/// `str::trim`: the text without leading and trailing white space.
#[verifier::external_body]
fn trim(value: &str) -> (result: String)
    ensures
        result@ == trimmed(value@),
{
    value.trim().to_owned()
}

/// `str::contains`: tells whether the text holds the key.
#[verifier::external_body]
fn contains(value: &String, key: &String) -> (found: bool)
    ensures
        found == holds(value@, key@),
{
    value.contains(key.as_str())
}

/// `str::replace`: the text with every match of the key replaced, each match looked for behind the
/// one before. An empty key matches before every character and at the end, as in `str::split`.
#[verifier::external_body]
fn replace(value: &String, key: &String, with: &String) -> (result: String)
    ensures
        result@ == replaced(value@, key@, with@),
{
    value.replace(key.as_str(), with)
}

/// Replaces the defined variables in a value, in the order in which they are listed. White space
/// around the value is dropped.
pub fn apply_defines(value: &str, defines: &Vec<(String, String)>) -> (result: String)
    ensures
        result@ == resolved(trimmed(value@), defines@, defines@.len() as int),
{
    let mut result = trim(value);
    let mut i: usize = 0;
    while i < defines.len()
        invariant
            i <= defines@.len(),
            result@ == resolved(trimmed(value@), defines@, i as int),
        decreases defines@.len() - i,
    {
        let key = &defines[i].0;
        let with = &defines[i].1;
        if contains(&result, key) {
            result = replace(&result, key, with);
        } else {
            proof {
                lemma_replaced_absent(result@, key@, with@);
            }
        }
        i += 1;
    }
    result
}

/// A text that does not hold a key stays as it is.
pub proof fn lemma_replaced_absent(s: Seq<char>, part: Seq<char>, with: Seq<char>)
    requires
        !holds(s, part),
    ensures
        replaced(s, part, with) == s,
    decreases s.len(),
{
    if part.len() == 0 {
        assert(s.subrange(0, 0int + part.len()) =~= part);
    } else if s.len() >= part.len() {
        assert(s.subrange(0, 0int + part.len()) =~= s.take(part.len() as int));
        let rest = s.drop_first();
        assert forall|i: int| 0 <= i <= rest.len() - part.len() implies #[trigger] rest.subrange(
            i,
            i + part.len(),
        ) != part by {
            assert(rest.subrange(i, i + part.len()) =~= s.subrange(i + 1, i + 1 + part.len()));
        }
        lemma_replaced_absent(rest, part, with);
        assert(seq![s[0]] + rest =~= s);
    }
}

/// A value in which none of the defined variables occurs is only trimmed.
pub proof fn lemma_nothing_defined(s: Seq<char>, defines: Seq<(String, String)>, n: int)
    requires
        0 <= n <= defines.len(),
        forall|i: int| 0 <= i < n ==> !holds(s, (#[trigger] defines[i]).0@),
    ensures
        resolved(s, defines, n) == s,
    decreases n,
{
    if n > 0 {
        lemma_nothing_defined(s, defines, n - 1);
        lemma_replaced_absent(s, defines[n - 1].0@, defines[n - 1].1@);
    }
}

/// Whether `inner` is what is left of `s` without the white space around it.
pub open spec fn is_core(s: Seq<char>, from: int, to: int, inner: Seq<char>) -> bool {
    &&& 0 <= from <= to <= s.len()
    &&& inner == s.subrange(from, to)
    &&& forall|i: int| 0 <= i < from ==> is_white(#[trigger] s[i])
    &&& forall|i: int| to <= i < s.len() ==> is_white(#[trigger] s[i])
    &&& from < to ==> !is_white(s[from]) && !is_white(s[to - 1])
}

/// Definitions apply in order: without any, a value only loses the white space around it; one more
/// definition replaces its key in what the others leave.
pub proof fn lemma_definitions_in_order(
    value: &str,
    none: Vec<(String, String)>,
    bare: String,
    some: Vec<(String, String)>,
    before: String,
    more: Vec<(String, String)>,
    key: String,
    with: String,
    after: String,
)
    requires
        call_ensures(apply_defines, (value, &none), bare),
        none@.len() == 0,
        call_ensures(apply_defines, (value, &some), before),
        call_ensures(apply_defines, (value, &more), after),
        more@ == some@.push((key, with)),
    ensures
        exists|from: int, to: int| #[trigger] is_core(value@, from, to, bare@),
        after@ == replaced(before@, key@, with@),
        !holds(before@, key@) ==> after@ == before@,
{
    lemma_core(value@);
    lemma_resolved_prefix(trimmed(value@), some@, more@, some@.len() as int);
    assert(more@[some@.len() as int] == (key, with));
    if !holds(before@, key@) {
        lemma_replaced_absent(before@, key@, with@);
    }
}

/// What trimming leaves.
proof fn lemma_core(s: Seq<char>)
    ensures
        exists|from: int, to: int| #[trigger] is_core(s, from, to, trimmed(s)),
{
    let from = lemma_core_start(s);
    let t = trimmed_start(s);
    let len = lemma_core_end(t);
    let to = from + len;
    assert(trimmed(s) =~= s.subrange(from, to));
    assert forall|i: int| to <= i < s.len() implies is_white(#[trigger] s[i]) by {
        assert(s[i] == t[i - from]);
    }
    if from < to {
        assert(s[from] == t[0]);
        assert(s[to - 1] == t[len - 1]);
    }
    assert(is_core(s, from, to, trimmed(s)));
}

/// What is trimmed at the start.
proof fn lemma_core_start(s: Seq<char>) -> (from: int)
    ensures
        0 <= from <= s.len(),
        trimmed_start(s) == s.skip(from),
        forall|i: int| 0 <= i < from ==> is_white(#[trigger] s[i]),
        from < s.len() ==> !is_white(s[from]),
    decreases s.len(),
{
    if s.len() > 0 && is_white(s[0]) {
        let rest = s.drop_first();
        let from = lemma_core_start(rest);
        assert(s.skip(from + 1) =~= rest.skip(from));
        assert forall|i: int| 0 <= i < from + 1 implies is_white(#[trigger] s[i]) by {
            if i > 0 {
                assert(s[i] == rest[i - 1]);
            }
        }
        if from < rest.len() {
            assert(rest[from] == s[from + 1]);
        }
        from + 1
    } else {
        assert(s.skip(0) =~= s);
        0
    }
}

/// What is trimmed at the end.
proof fn lemma_core_end(s: Seq<char>) -> (len: int)
    ensures
        0 <= len <= s.len(),
        trimmed_end(s) == s.take(len),
        forall|i: int| len <= i < s.len() ==> is_white(#[trigger] s[i]),
        len > 0 ==> !is_white(s[len - 1]),
    decreases s.len(),
{
    if s.len() > 0 && is_white(s.last()) {
        let rest = s.drop_last();
        let len = lemma_core_end(rest);
        assert(s.take(len) =~= rest.take(len));
        assert forall|i: int| len <= i < s.len() implies is_white(#[trigger] s[i]) by {
            if i < rest.len() {
                assert(s[i] == rest[i]);
            }
        }
        if len > 0 {
            assert(rest[len - 1] == s[len - 1]);
        }
        len
    } else {
        assert(s.take(s.len() as int) =~= s);
        s.len() as int
    }
}

/// Definitions that come later do not matter to the earlier ones.
proof fn lemma_resolved_prefix(
    s: Seq<char>,
    some: Seq<(String, String)>,
    more: Seq<(String, String)>,
    n: int,
)
    requires
        0 <= n <= some.len() <= more.len(),
        forall|i: int| 0 <= i < some.len() ==> #[trigger] more[i] == some[i],
    ensures
        resolved(s, more, n) == resolved(s, some, n),
    decreases n,
{
    if n > 0 {
        lemma_resolved_prefix(s, some, more, n - 1);
        assert(more[n - 1] == some[n - 1]);
    }
}

} // verus!
