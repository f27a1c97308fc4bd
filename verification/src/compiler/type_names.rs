//! The grammar of type names.
//!
//! A type name is one of the primitive names `Int`, `Float`, `String`,
//! `Char`, `Bool`, `Error` and `Null`, or is built from other type names:
//! `T[]` is a list, `T[n]` an array of `n` elements, `T?` an option, `T!` a
//! result, `(T, U, ..)` a tuple and `{K: V}` a dictionary. Every other name
//! is the name of a type that is not resolved yet.

use crate::compiler::ir_datatype::{type_views, IRDataType, TypeView};
use crate::text::{chars_of, text_of};
use vstd::prelude::*;

verus! {

/// Whether a character is white space.
pub open spec fn is_space(c: char) -> bool {
    c == ' ' || c == '\t' || c == '\n' || c == '\r'
}

/// A text without the white space at its start.
pub open spec fn trim_start(s: Seq<char>) -> Seq<char>
    decreases s.len(),
{
    if s.len() > 0 && is_space(s[0]) {
        trim_start(s.drop_first())
    } else {
        s
    }
}

/// A text without the white space at its end.
pub open spec fn trim_end(s: Seq<char>) -> Seq<char>
    decreases s.len(),
{
    if s.len() > 0 && is_space(s.last()) {
        trim_end(s.drop_last())
    } else {
        s
    }
}

/// A text without the white space at its start and at its end.
pub open spec fn trim(s: Seq<char>) -> Seq<char> {
    trim_end(trim_start(s))
}

/// By how much a character changes the depth of nesting.
pub open spec fn nesting(c: char) -> int {
    if c == '(' || c == '[' || c == '{' {
        1
    } else if c == ')' || c == ']' || c == '}' {
        -1
    } else {
        0
    }
}

/// The index of the first `c` at or after `i` that lies outside all
/// brackets, given the depth of nesting at `i`; the length of the text where
/// there is none.
pub open spec fn find_top(s: Seq<char>, c: char, i: int, depth: int) -> int
    decreases s.len() - i,
{
    if i < 0 || i >= s.len() {
        s.len() as int
    } else if depth == 0 && s[i] == c {
        i
    } else {
        find_top(s, c, i + 1, depth + nesting(s[i]))
    }
}

/// The index of the last `[` of a text, or -1.
pub open spec fn last_open(s: Seq<char>) -> int
    decreases s.len(),
{
    if s.len() == 0 {
        -1
    } else if s.last() == '[' {
        s.len() - 1
    } else {
        last_open(s.drop_last())
    }
}

/// Whether a character is a decimal digit.
pub open spec fn is_digit(c: char) -> bool {
    '0' <= c <= '9'
}

/// Whether a text is made of decimal digits only.
pub open spec fn all_digits(s: Seq<char>) -> bool {
    forall|i: int| 0 <= i < s.len() ==> is_digit(#[trigger] s[i])
}

/// The number that decimal digits spell.
pub open spec fn digits_value(s: Seq<char>) -> nat
    decreases s.len(),
{
    if s.len() == 0 {
        0
    } else {
        (digits_value(s.drop_last()) * 10 + (s.last() as u32 - '0' as u32)) as nat
    }
}

/// Whether a name is that of a list: an element type, then `[]`.
pub open spec fn is_list(s: Seq<char>) -> bool {
    s.len() >= 3 && s[s.len() - 2] == '[' && s[s.len() - 1] == ']'
}

/// The digits between the last `[` of a name and its last character.
pub open spec fn array_digits(s: Seq<char>) -> Seq<char> {
    s.subrange(last_open(s) + 1, s.len() - 1)
}

/// Whether a name is that of an array: an element type, then a length that
/// fits 32 bits, in square brackets.
pub open spec fn is_array(s: Seq<char>) -> bool {
    &&& s.len() >= 4
    &&& s.last() == ']'
    &&& 1 <= last_open(s) < s.len() - 2
    &&& all_digits(array_digits(s))
    &&& digits_value(array_digits(s)) <= u32::MAX
}

/// Whether a name is enclosed in the given pair of brackets.
pub open spec fn enclosed(s: Seq<char>, open: char, close: char) -> bool {
    s.len() >= 2 && s[0] == open && s.last() == close
}

/// What a name has between its first and its last character.
pub open spec fn inner(s: Seq<char>) -> Seq<char> {
    s.subrange(1, s.len() - 1)
}

/// Whether a name is that of a dictionary: a key type and a value type,
/// separated by a colon, in braces.
pub open spec fn is_dictionary(s: Seq<char>) -> bool {
    enclosed(s, '{', '}') && find_top(inner(s), ':', 0, 0) < inner(s).len()
}

/// Trimming does not make a text longer.
pub proof fn lemma_trim_len(s: Seq<char>)
    ensures
        trim_start(s).len() <= s.len(),
        trim_end(s).len() <= s.len(),
        trim(s).len() <= s.len(),
{
    lemma_trim_start_len(s);
    lemma_trim_end_len(s);
    lemma_trim_end_len(trim_start(s));
}

proof fn lemma_trim_start_len(s: Seq<char>)
    ensures
        trim_start(s).len() <= s.len(),
    decreases s.len(),
{
    if s.len() > 0 && is_space(s[0]) {
        lemma_trim_start_len(s.drop_first());
    }
}

proof fn lemma_trim_end_len(s: Seq<char>)
    ensures
        trim_end(s).len() <= s.len(),
    decreases s.len(),
{
    if s.len() > 0 && is_space(s.last()) {
        lemma_trim_end_len(s.drop_last());
    }
}

/// A separator is found inside the text or not at all.
pub proof fn lemma_find_top_range(s: Seq<char>, c: char, i: int, depth: int)
    requires
        0 <= i <= s.len(),
    ensures
        i <= find_top(s, c, i, depth) <= s.len(),
    decreases s.len() - i,
{
    if i < s.len() && !(depth == 0 && s[i] == c) {
        lemma_find_top_range(s, c, i + 1, depth + nesting(s[i]));
    }
}

/// The last `[` lies inside the text, where there is one.
pub proof fn lemma_last_open_range(s: Seq<char>)
    ensures
        -1 <= last_open(s) < s.len(),
        last_open(s) >= 0 ==> s[last_open(s)] == '[',
    decreases s.len(),
{
    if s.len() > 0 && s.last() != '[' {
        lemma_last_open_range(s.drop_last());
    }
}

/// The type that a name stands for.
pub open spec fn type_of_name(s: Seq<char>) -> TypeView
    decreases s.len(), 0nat,
{
    if s == "Int"@ {
        TypeView::Int
    } else if s == "Float"@ {
        TypeView::Float
    } else if s == "String"@ {
        TypeView::String
    } else if s == "Char"@ {
        TypeView::Char
    } else if s == "Bool"@ {
        TypeView::Bool
    } else if s == "Error"@ {
        TypeView::Error
    } else if s == "Null"@ {
        TypeView::Null
    } else if is_list(s) {
        TypeView::List(Box::new(type_of_name(s.subrange(0, s.len() - 2))))
    } else if is_array(s) {
        TypeView::Array(
            Box::new(type_of_name(s.subrange(0, last_open(s)))),
            digits_value(array_digits(s)) as u32,
        )
    } else if s.len() >= 2 && s.last() == '?' {
        TypeView::Option(Box::new(type_of_name(s.drop_last())))
    } else if s.len() >= 2 && s.last() == '!' {
        TypeView::Result(Box::new(type_of_name(s.drop_last())))
    } else if enclosed(s, '(', ')') {
        TypeView::Tuple(tuple_items(inner(s)))
    } else if is_dictionary(s) {
        let body = inner(s);
        let colon = find_top(body, ':', 0, 0);
        proof {
            lemma_find_top_range(body, ':', 0, 0);
            lemma_trim_len(body.subrange(0, colon));
            lemma_trim_len(body.subrange(colon + 1, body.len() as int));
        }
        TypeView::Dictionary(
            Box::new(type_of_name(trim(body.subrange(0, colon)))),
            Box::new(type_of_name(trim(body.subrange(colon + 1, body.len() as int)))),
        )
    } else {
        TypeView::Unresolved(s)
    }
}

/// The types that the items of a tuple stand for: the pieces between the
/// commas that lie outside all brackets, each without the white space
/// around it. White space alone holds no item.
pub open spec fn tuple_items(s: Seq<char>) -> Seq<TypeView>
    decreases s.len(), 1nat,
{
    if trim(s).len() == 0 {
        Seq::empty()
    } else {
        let comma = find_top(s, ',', 0, 0);
        proof {
            lemma_find_top_range(s, ',', 0, 0);
            lemma_trim_len(s);
            lemma_trim_len(s.subrange(0, comma));
        }
        if comma >= s.len() {
            seq![type_of_name(trim(s))]
        } else {
            seq![type_of_name(trim(s.subrange(0, comma)))] + tuple_items(
                s.subrange(comma + 1, s.len() as int),
            )
        }
    }
}

/// Whether the characters from `lo` up to `hi` spell the given word.
fn range_is(chars: &Vec<char>, lo: usize, hi: usize, word: &str) -> (r: bool)
    requires
        lo <= hi <= chars@.len(),
    ensures
        r == (chars@.subrange(lo as int, hi as int) == word@),
{
    let n = word.unicode_len();
    if hi - lo != n {
        return false;
    }
    let mut i: usize = 0;
    while i < n
        invariant
            i <= n,
            n == word@.len(),
            n == hi - lo,
            lo <= hi <= chars@.len(),
            forall|j: int| 0 <= j < i ==> chars@[lo + j] == word@[j],
        decreases n - i,
    {
        if chars[lo + i] != word.get_char(i) {
            assert(chars@.subrange(lo as int, hi as int)[i as int] != word@[i as int]);
            return false;
        }
        i += 1;
    }
    assert(chars@.subrange(lo as int, hi as int) =~= word@);
    true
}

/// Whether a character is white space.
fn space(c: char) -> (r: bool)
    ensures
        r == is_space(c),
{
    c == ' ' || c == '\t' || c == '\n' || c == '\r'
}

/// The range that is left of `lo..hi` without the white space at both ends.
fn trim_range(chars: &Vec<char>, lo: usize, hi: usize) -> (r: (usize, usize))
    requires
        lo <= hi <= chars@.len(),
    ensures
        lo <= r.0 <= r.1 <= hi,
        chars@.subrange(r.0 as int, r.1 as int) == trim(chars@.subrange(lo as int, hi as int)),
{
    let ghost s = chars@.subrange(lo as int, hi as int);
    let mut a = lo;
    while a < hi && space(chars[a])
        invariant
            lo <= a <= hi <= chars@.len(),
            trim_start(s) == trim_start(chars@.subrange(a as int, hi as int)),
            s == chars@.subrange(lo as int, hi as int),
        decreases hi - a,
    {
        proof {
            let cur = chars@.subrange(a as int, hi as int);
            assert(cur.drop_first() =~= chars@.subrange(a + 1, hi as int));
        }
        a += 1;
    }
    let ghost t = chars@.subrange(a as int, hi as int);
    assert(trim_start(s) == t);
    let mut b = hi;
    while a < b && space(chars[b - 1])
        invariant
            a <= b <= hi <= chars@.len(),
            trim_end(t) == trim_end(chars@.subrange(a as int, b as int)),
        decreases b - a,
    {
        proof {
            let cur = chars@.subrange(a as int, b as int);
            assert(cur.drop_last() =~= chars@.subrange(a as int, b - 1));
        }
        b -= 1;
    }
    (a, b)
}

/// By how much a character changes the depth of nesting.
fn nesting_of(c: char) -> (d: i8)
    ensures
        d == nesting(c),
{
    if c == '(' || c == '[' || c == '{' {
        1
    } else if c == ')' || c == ']' || c == '}' {
        -1
    } else {
        0
    }
}

/// The index, counted from `lo`, of the first `c` in `lo..hi` that lies
/// outside all brackets; `hi - lo` where there is none.
fn find_top_in(chars: &Vec<char>, lo: usize, hi: usize, c: char) -> (k: usize)
    requires
        lo <= hi <= chars@.len(),
    ensures
        k == find_top(chars@.subrange(lo as int, hi as int), c, 0, 0),
        k <= hi - lo,
{
    let ghost s = chars@.subrange(lo as int, hi as int);
    let mut i: usize = 0;
    let mut depth: usize = 0;
    let mut below: usize = 0;
    // `depth` counts the nesting while it is not negative; `below` counts how
    // far under zero it is otherwise.
    while i < hi - lo
        invariant
            lo <= hi <= chars@.len(),
            i <= hi - lo,
            s == chars@.subrange(lo as int, hi as int),
            depth <= i,
            below <= i,
            depth == 0 || below == 0,
            find_top(s, c, 0, 0) == find_top(s, c, i as int, depth - below),
        decreases hi - lo - i,
    {
        let ch = chars[lo + i];
        assert(ch == s[i as int]);
        if depth == 0 && below == 0 && ch == c {
            return i;
        }
        let d = nesting_of(ch);
        if d == 1 {
            if below > 0 {
                below -= 1;
            } else {
                depth += 1;
            }
        } else if d == -1 {
            if depth > 0 {
                depth -= 1;
            } else {
                below += 1;
            }
        }
        i += 1;
    }
    i
}

/// The index, counted from `lo`, of the last `[` in `lo..hi`.
fn last_open_in(chars: &Vec<char>, lo: usize, hi: usize) -> (k: Option<usize>)
    requires
        lo <= hi <= chars@.len(),
    ensures
        match k {
            Some(i) => last_open(chars@.subrange(lo as int, hi as int)) == i,
            None => last_open(chars@.subrange(lo as int, hi as int)) == -1,
        },
{
    let ghost s = chars@.subrange(lo as int, hi as int);
    let mut b = hi;
    assert(s.subrange(0, (b - lo) as int) =~= s);
    while b > lo
        invariant
            lo <= b <= hi <= chars@.len(),
            s == chars@.subrange(lo as int, hi as int),
            last_open(s) == last_open(s.subrange(0, (b - lo) as int)),
        decreases b - lo,
    {
        let ghost cur = s.subrange(0, (b - lo) as int);
        assert(cur.last() == chars@[b - 1]);
        if chars[b - 1] == '[' {
            return Some(b - 1 - lo);
        }
        assert(cur.drop_last() =~= s.subrange(0, (b - 1 - lo) as int));
        b -= 1;
    }
    None
}

/// The number that the digits in `lo..hi` spell, if all are digits and the
/// number fits 32 bits.
fn digits_in(chars: &Vec<char>, lo: usize, hi: usize) -> (r: Option<u32>)
    requires
        lo <= hi <= chars@.len(),
    ensures
        r is Some <==> all_digits(chars@.subrange(lo as int, hi as int)) && digits_value(
            chars@.subrange(lo as int, hi as int),
        ) <= u32::MAX,
        r matches Some(n) ==> n == digits_value(chars@.subrange(lo as int, hi as int)),
{
    let ghost s = chars@.subrange(lo as int, hi as int);
    let mut value: u64 = 0;
    let mut i: usize = lo;
    let mut overflow = false;
    while i < hi
        invariant
            lo <= i <= hi <= chars@.len(),
            s == chars@.subrange(lo as int, hi as int),
            all_digits(s.subrange(0, (i - lo) as int)),
            !overflow ==> value == digits_value(s.subrange(0, (i - lo) as int)),
            !overflow ==> value <= u32::MAX,
            overflow ==> digits_value(s.subrange(0, (i - lo) as int)) > u32::MAX,
        decreases hi - i,
    {
        let c = chars[i];
        let ghost before = s.subrange(0, (i - lo) as int);
        let ghost upto = s.subrange(0, (i + 1 - lo) as int);
        assert(upto.drop_last() =~= before);
        assert(upto.last() == c);
        if !(c >= '0' && c <= '9') {
            assert(s[(i - lo) as int] == c);
            return None;
        }
        assert forall|j: int| 0 <= j < upto.len() implies is_digit(#[trigger] upto[j]) by {
            if j < before.len() {
                assert(before[j] == upto[j]);
            }
        }
        if !overflow {
            value = value * 10 + (c as u32 - '0' as u32) as u64;
            if value > u32::MAX as u64 {
                overflow = true;
            }
        }
        i += 1;
    }
    assert(s.subrange(0, (hi - lo) as int) =~= s);
    if overflow {
        None
    } else {
        Some(value as u32)
    }
}

/// The type that the characters from `lo` up to `hi` of a name stand for.
fn parse_type(name: &str, chars: &Vec<char>, lo: usize, hi: usize) -> (t: IRDataType)
    requires
        chars@ == name@,
        lo <= hi <= chars@.len(),
    ensures
        t@ == type_of_name(chars@.subrange(lo as int, hi as int)),
    decreases hi - lo, 0nat,
{
    let ghost s = chars@.subrange(lo as int, hi as int);
    let len = hi - lo;
    if range_is(chars, lo, hi, "Int") {
        return IRDataType::Int;
    }
    if range_is(chars, lo, hi, "Float") {
        return IRDataType::Float;
    }
    if range_is(chars, lo, hi, "String") {
        return IRDataType::String;
    }
    if range_is(chars, lo, hi, "Char") {
        return IRDataType::Char;
    }
    if range_is(chars, lo, hi, "Bool") {
        return IRDataType::Bool;
    }
    if range_is(chars, lo, hi, "Error") {
        return IRDataType::Error;
    }
    if range_is(chars, lo, hi, "Null") {
        return IRDataType::Null;
    }
    if len >= 3 && chars[hi - 2] == '[' && chars[hi - 1] == ']' {
        assert(is_list(s));
        assert(s.subrange(0, s.len() - 2) =~= chars@.subrange(lo as int, hi - 2));
        let element = parse_type(name, chars, lo, hi - 2);
        return IRDataType::List(Box::new(element));
    }
    assert(!is_list(s));
    if len >= 4 && chars[hi - 1] == ']' {
        proof {
            lemma_last_open_range(s);
        }
        match last_open_in(chars, lo, hi) {
            Some(k) => {
                if k >= 1 && k < len - 2 {
                    assert(array_digits(s) =~= chars@.subrange(lo + k + 1, hi - 1));
                    match digits_in(chars, lo + k + 1, hi - 1) {
                        Some(n) => {
                            assert(is_array(s));
                            assert(s.subrange(0, k as int) =~= chars@.subrange(
                                lo as int,
                                lo + k,
                            ));
                            let element = parse_type(name, chars, lo, lo + k);
                            return IRDataType::Array(Box::new(element), n);
                        },
                        None => {},
                    }
                }
            },
            None => {},
        }
    }
    assert(!is_array(s));
    if len >= 2 && chars[hi - 1] == '?' {
        assert(s.drop_last() =~= chars@.subrange(lo as int, hi - 1));
        let element = parse_type(name, chars, lo, hi - 1);
        return IRDataType::Option(Box::new(element));
    }
    if len >= 2 && chars[hi - 1] == '!' {
        assert(s.drop_last() =~= chars@.subrange(lo as int, hi - 1));
        let element = parse_type(name, chars, lo, hi - 1);
        return IRDataType::Result(Box::new(element));
    }
    if len >= 2 && chars[lo] == '(' && chars[hi - 1] == ')' {
        assert(enclosed(s, '(', ')'));
        assert(inner(s) =~= chars@.subrange(lo + 1, hi - 1));
        let items = parse_items(name, chars, lo + 1, hi - 1);
        return IRDataType::Tuple(items);
    }
    assert(!enclosed(s, '(', ')'));
    if len >= 2 && chars[lo] == '{' && chars[hi - 1] == '}' {
        assert(enclosed(s, '{', '}'));
        assert(inner(s) =~= chars@.subrange(lo + 1, hi - 1));
        let colon = find_top_in(chars, lo + 1, hi - 1, ':');
        if colon < len - 2 {
            let ghost body = inner(s);
            assert(body.subrange(0, colon as int) =~= chars@.subrange(lo + 1, lo + 1 + colon));
            assert(body.subrange(colon + 1, body.len() as int) =~= chars@.subrange(
                lo + 1 + colon + 1,
                hi - 1,
            ));
            let key_range = trim_range(chars, lo + 1, lo + 1 + colon);
            let value_range = trim_range(chars, lo + 1 + colon + 1, hi - 1);
            let key = parse_type(name, chars, key_range.0, key_range.1);
            let value = parse_type(name, chars, value_range.0, value_range.1);
            return IRDataType::Dictionary(Box::new(key), Box::new(value));
        }
    }
    assert(!is_dictionary(s));
    IRDataType::Unresolved(text_of(name, lo, hi))
}

/// The types that the items in `lo..hi` of a tuple's name stand for.
fn parse_items(name: &str, chars: &Vec<char>, lo: usize, hi: usize) -> (items: Vec<IRDataType>)
    requires
        chars@ == name@,
        lo <= hi <= chars@.len(),
    ensures
        type_views(items@) == tuple_items(chars@.subrange(lo as int, hi as int)),
    decreases hi - lo, 1nat,
{
    let ghost s = chars@.subrange(lo as int, hi as int);
    let whole = trim_range(chars, lo, hi);
    if whole.0 == whole.1 {
        let items: Vec<IRDataType> = Vec::new();
        assert(type_views(items@) =~= Seq::<TypeView>::empty());
        return items;
    }
    let comma = find_top_in(chars, lo, hi, ',');
    if comma >= hi - lo {
        let mut items: Vec<IRDataType> = Vec::new();
        let item = parse_type(name, chars, whole.0, whole.1);
        items.push(item);
        assert(type_views(items@) =~= seq![item@]);
        return items;
    }
    assert(s.subrange(0, comma as int) =~= chars@.subrange(lo as int, lo + comma));
    assert(s.subrange(comma + 1, s.len() as int) =~= chars@.subrange(lo + comma + 1, hi as int));
    let first_range = trim_range(chars, lo, lo + comma);
    let first = parse_type(name, chars, first_range.0, first_range.1);
    let mut rest = parse_items(name, chars, lo + comma + 1, hi);
    let ghost rest_views = type_views(rest@);
    rest.insert(0, first);
    assert(type_views(rest@) =~= seq![first@] + rest_views);
    rest
}

impl IRDataType {
    /// The type that a name stands for.
    pub fn from(name: &str) -> (t: IRDataType)
        ensures
            t@ == type_of_name(name@),
    {
        let chars = chars_of(name);
        assert(chars@.subrange(0, chars@.len() as int) =~= chars@);
        parse_type(name, &chars, 0, chars.len())
    }
}

} // verus!
