//! What holds of the names of tables.
use crate::io::server::{
    dotted, is_last_segment, is_segment_at, is_table_name, is_trim_at, is_trimmed, is_white_space,
    one_table_name,
};
use vstd::prelude::*;
use vstd::string::*;

verus! {

/// Whether a text is one that a table can have for its name as it stands: it is not empty,
/// holds no dot, and starts and ends with a letter, a digit or an underscore.
pub open spec fn is_clean(name: Seq<char>) -> bool {
    &&& name.len() > 0
    &&& forall|i: int| 0 <= i < name.len() ==> #[trigger] name[i] != '.'
    &&& is_word(name[0])
    &&& is_word(name.last())
}

/// Whether a character is a letter, a digit or an underscore of ASCII.
pub open spec fn is_word(c: char) -> bool {
    'a' <= c <= 'z' || 'A' <= c <= 'Z' || '0' <= c <= '9' || c == '_'
}

/// Spaces, tabs and ends of lines are white space; letters, digits, underscores and dots are
/// not.
pub proof fn white_space_is_told_apart(c: char)
    ensures
        c == ' ' || c == '\t' || c == '\n' || c == '\r' ==> is_white_space(c),
        is_word(c) || c == '.' ==> !is_white_space(c),
{
}

/// A clean name without a path names its own table, also with white space around it.
pub proof fn bare_names_stand(before: Seq<char>, name: Seq<char>, behind: Seq<char>)
    requires
        is_clean(name),
        forall|i: int| 0 <= i < before.len() ==> (#[trigger] before[i]) == ' ',
        forall|i: int| 0 <= i < behind.len() ==> (#[trigger] behind[i]) == ' ',
    ensures
        forall|t: Seq<char>| #[trigger]
            is_table_name(before + name + behind, t) <==> t == name,
{
    let s = before + name + behind;
    let (a, b) = (before.len() as int, (before.len() + name.len()) as int);
    assert(s.subrange(a, b) =~= name);
    white_space_is_told_apart(name[0]);
    white_space_is_told_apart(name.last());
    white_space_is_told_apart(' ');
    assert forall|i: int| 0 <= i < a implies is_white_space(#[trigger] s[i]) by {
        assert(s[i] == before[i]);
    }
    assert forall|i: int| b <= i < s.len() implies is_white_space(#[trigger] s[i]) by {
        assert(s[i] == behind[i - b]);
    }
    assert(is_trim_at(s, name, a, b));
    assert(is_trimmed(s, name));
    assert(is_last_segment(name, name)) by {
        assert(name.subrange(0, name.len() as int) =~= name);
        assert(is_segment_at(name, name, 0));
    }
    words_are_trimmed(name);
    names_it(s, name, name, name);
}

/// Of a path of names with dots between them, the last names the table.
pub proof fn last_names_the_table(names: Seq<Seq<char>>)
    requires
        names.len() > 1,
        is_clean(names[0]),
        is_clean(names.last()),
    ensures
        forall|t: Seq<char>| #[trigger] is_table_name(dotted(names), t) <==> t == names.last(),
{
    let head = dotted(names.drop_last());
    starts_with_the_first(names.drop_last());
    assert(names.drop_last()[0] == names[0]);
    behind_the_dot(head, names.last());
    reveal_strlit(".");
    assert("."@ =~= seq!['.']);
    assert(dotted(names) == head + seq!['.'] + names.last());
}

/// A text that starts and ends with a word is without white space around it.
proof fn words_are_trimmed(s: Seq<char>)
    requires
        s.len() > 0,
        is_word(s[0]),
        is_word(s.last()),
    ensures
        is_trimmed(s, s),
{
    white_space_is_told_apart(s[0]);
    white_space_is_told_apart(s.last());
    assert(s.subrange(0, s.len() as int) =~= s);
    assert(is_trim_at(s, s, 0, s.len() as int));
}

/// A clean name behind a dot is what stands behind the last dot.
proof fn clean_is_last(head: Seq<char>, name: Seq<char>)
    requires
        is_clean(name),
    ensures
        is_last_segment(head + seq!['.'] + name, name),
{
    let s = head + seq!['.'] + name;
    let a = head.len() + 1;
    assert(s.subrange(a as int, s.len() as int) =~= name);
    assert(s[a - 1] == '.');
    assert forall|i: int| a <= i < s.len() implies #[trigger] s[i] != '.' by {
        assert(s[i] == name[i - a]);
    }
    assert(is_segment_at(s, name, a as int));
}

/// What stands behind the last dot names the table.
proof fn behind_the_dot(head: Seq<char>, name: Seq<char>)
    requires
        head.len() > 0,
        is_word(head[0]),
        is_clean(name),
    ensures
        forall|t: Seq<char>| #[trigger]
            is_table_name(head + seq!['.'] + name, t) <==> t == name,
{
    let s = head + seq!['.'] + name;
    assert(s[0] == head[0] && s.last() == name.last());
    words_are_trimmed(s);
    words_are_trimmed(name);
    clean_is_last(head, name);
    names_it(s, s, name, name);
}

/// A reference names the table that its parts lead to, and no other.
proof fn names_it(s: Seq<char>, whole: Seq<char>, part: Seq<char>, name: Seq<char>)
    requires
        is_trimmed(s, whole),
        is_last_segment(whole, part),
        is_trimmed(part, name),
    ensures
        forall|t: Seq<char>| #[trigger] is_table_name(s, t) <==> t == name,
{
    assert(is_table_name(s, name));
    assert forall|t: Seq<char>| #[trigger] is_table_name(s, t) implies t == name by {
        one_table_name(s, t, name);
    }
}

proof fn starts_with_the_first(names: Seq<Seq<char>>)
    requires
        names.len() > 0,
        names[0].len() > 0,
    ensures
        dotted(names).len() > 0,
        dotted(names)[0] == names[0][0],
    decreases names.len(),
{
    if names.len() > 1 {
        starts_with_the_first(names.drop_last());
    }
}

/// A path of names is the first of them, and then each behind a dot.
pub proof fn paths_are_dotted(names: Seq<Seq<char>>, name: Seq<char>)
    ensures
        dotted(seq![name]) == name,
        names.len() > 0 ==> dotted(names.push(name)) == dotted(names) + seq!['.'] + name,
        dotted(Seq::empty()).len() == 0,
{
    reveal_strlit(".");
    assert("."@ =~= seq!['.']);
    assert(names.push(name).drop_last() =~= names);
}

} // verus!
