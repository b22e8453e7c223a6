//! JSON text: objects written member by member, and what string literals keep.

use crate::outside;
use crate::outside::json_text;
use crate::text;
use crate::text::decimal_text;
use vstd::prelude::*;
use vstd::string::*;

verus! {

/// A member of an object: its name and the text of its value.
pub open spec fn member(name: Seq<char>, value: Seq<char>) -> Seq<char> {
    outside::json_string(name) + ":"@ + value
}

/// Members with commas between them.
pub open spec fn joined(members: Seq<(Seq<char>, Seq<char>)>) -> Seq<char>
    decreases members.len(),
{
    if members.len() == 0 {
        seq![]
    } else if members.len() == 1 {
        member(members[0].0, members[0].1)
    } else {
        joined(members.drop_last()) + ","@ + member(members.last().0, members.last().1)
    }
}

/// The text of an object with the given members.
pub open spec fn object(members: Seq<(Seq<char>, Seq<char>)>) -> Seq<char> {
    "{"@ + joined(members) + "}"@
}

/// An object being written.
pub struct Object {
    text: String,
    empty: bool,
    members: Ghost<Seq<(Seq<char>, Seq<char>)>>,
}

impl View for Object {
    type V = Seq<(Seq<char>, Seq<char>)>;

    closed spec fn view(&self) -> Seq<(Seq<char>, Seq<char>)> {
        self.members@
    }
}

impl Object {
    /// The text holds every member so far.
    pub closed spec fn wf(self) -> bool {
        self.text@ == "{"@ + joined(self.members@) && self.empty == (self.members@.len() == 0)
    }

    pub fn new() -> (r: Object)
        ensures
            r.wf(),
            r@ == Seq::<(Seq<char>, Seq<char>)>::empty(),
    {
        let r = Object { text: "{".to_owned(), empty: true, members: Ghost(Seq::empty()) };
        assert(r.text@ == "{"@ + joined(r.members@));
        r
    }

    /// Adds a member whose value is JSON text already.
    pub fn put(&mut self, name: &str, value: &str)
        requires
            old(self).wf(),
        ensures
            final(self).wf(),
            final(self)@ == old(self)@.push((name@, value@)),
    {
        let ghost before = self.members@;
        if !self.empty {
            self.text.append(",");
        }
        self.text.append(json_text(name).as_str());
        self.text.append(":");
        self.text.append(value);
        self.empty = false;
        let ghost after = before.push((name@, value@));
        proof {
            self.members@ = after;
            assert(after.drop_last() == before);
            assert(self.text@ == "{"@ + joined(after));
        }
    }

    /// Adds a string member.
    pub fn put_text(&mut self, name: &str, value: &str)
        requires
            old(self).wf(),
        ensures
            final(self).wf(),
            final(self)@ == old(self)@.push((name@, outside::json_string(value@))),
    {
        let quoted = json_text(value);
        self.put(name, quoted.as_str());
    }

    /// Adds a number member.
    pub fn put_number(&mut self, name: &str, value: u64)
        requires
            old(self).wf(),
        ensures
            final(self).wf(),
            final(self)@ == old(self)@.push((name@, text::decimal(value as nat))),
    {
        let digits = decimal_text(value as u128);
        self.put(name, digits.as_str());
    }

    /// The finished object.
    pub fn finish(self) -> (r: String)
        requires
            self.wf(),
        ensures
            r@ == object(self@),
    {
        let mut text = self.text;
        text.append("}");
        text
    }
}

/// Whether a text stays on one line and prints: no control character below U+0020.
pub open spec fn one_line(s: Seq<char>) -> bool {
    forall|i: int| 0 <= i < s.len() ==> (#[trigger] s[i]) as nat >= 32
}

proof fn lemma_one_line_joins(a: Seq<char>, b: Seq<char>)
    requires
        one_line(a),
        one_line(b),
    ensures
        one_line(a + b),
{
    assert forall|i: int| 0 <= i < (a + b).len() implies (#[trigger] (a + b)[i]) as nat >= 32 by {
        if i < a.len() {
            assert((a + b)[i] == a[i]);
        } else {
            assert((a + b)[i] == b[i - a.len()]);
        }
    }
}

/// A JSON string stays on one line, whatever it says.
pub proof fn law_json_string_is_one_line(s: Seq<char>)
    ensures
        one_line(outside::json_string(s)),
{
    lemma_body_is_one_line(s);
    lemma_one_line_joins(seq!['"'], outside::json_body(s));
    lemma_one_line_joins(seq!['"'] + outside::json_body(s), seq!['"']);
}

proof fn lemma_body_is_one_line(s: Seq<char>)
    ensures
        one_line(outside::json_body(s)),
    decreases s.len(),
{
    if s.len() > 0 {
        lemma_body_is_one_line(s.drop_last());
        let c = s.last();
        assert(one_line(outside::json_char(c)));
        lemma_one_line_joins(outside::json_body(s.drop_last()), outside::json_char(c));
    }
}

/// An object stays on one line if its values do.
pub proof fn law_object_is_one_line(members: Seq<(Seq<char>, Seq<char>)>)
    requires
        forall|i: int| 0 <= i < members.len() ==> one_line((#[trigger] members[i]).1),
    ensures
        one_line(object(members)),
{
    lemma_joined_is_one_line(members);
    reveal_strlit("{");
    reveal_strlit("}");
    lemma_one_line_joins("{"@, joined(members));
    lemma_one_line_joins("{"@ + joined(members), "}"@);
}

proof fn lemma_joined_is_one_line(members: Seq<(Seq<char>, Seq<char>)>)
    requires
        forall|i: int| 0 <= i < members.len() ==> one_line((#[trigger] members[i]).1),
    ensures
        one_line(joined(members)),
    decreases members.len(),
{
    reveal_strlit(":");
    reveal_strlit(",");
    if members.len() > 0 {
        let (name, value) = members.last();
        assert(one_line(members[members.len() - 1].1));
        law_json_string_is_one_line(name);
        lemma_one_line_joins(outside::json_string(name), ":"@);
        lemma_one_line_joins(outside::json_string(name) + ":"@, value);
        if members.len() > 1 {
            assert forall|i: int| 0 <= i < members.drop_last().len() implies one_line(
                (#[trigger] members.drop_last()[i]).1,
            ) by {
                assert(members.drop_last()[i] == members[i]);
            }
            lemma_joined_is_one_line(members.drop_last());
            lemma_one_line_joins(joined(members.drop_last()), ","@);
            lemma_one_line_joins(joined(members.drop_last()) + ","@, member(name, value));
        }
    }
}

/// What follows the string literal whose opening quote stands before `s`: a reverse solidus takes
/// the next character with it, and the first quote left ends the literal.
pub open spec fn behind_literal(s: Seq<char>) -> Option<Seq<char>>
    decreases s.len(),
{
    if s.len() == 0 {
        None
    } else if s[0] == '"' {
        Some(s.skip(1))
    } else if s[0] == '\\' {
        if s.len() == 1 {
            None
        } else {
            behind_literal(s.skip(2))
        }
    } else {
        behind_literal(s.skip(1))
    }
}

/// A JSON string read from its first character.
proof fn lemma_body_from_the_front(c: char, s: Seq<char>)
    ensures
        outside::json_body(seq![c] + s) == outside::json_char(c) + outside::json_body(s),
    decreases s.len(),
{
    let whole = seq![c] + s;
    if s.len() == 0 {
        assert(whole.drop_last() == Seq::<char>::empty());
        assert(outside::json_body(whole.drop_last()) == Seq::<char>::empty());
        assert(outside::json_body(s) == Seq::<char>::empty());
        assert(whole.last() == c);
        assert(Seq::<char>::empty() + outside::json_char(c) == outside::json_char(c)
            + Seq::<char>::empty());
    } else {
        assert(whole.drop_last() == seq![c] + s.drop_last());
        lemma_body_from_the_front(c, s.drop_last());
        assert(whole.last() == s.last());
        assert((outside::json_char(c) + outside::json_body(s.drop_last())) + outside::json_char(
            s.last(),
        ) == outside::json_char(c) + (outside::json_body(s.drop_last()) + outside::json_char(
            s.last(),
        )));
    }
}

/// A literal is read over one character of its string.
proof fn lemma_literal_step(c: char, rest: Seq<char>)
    ensures
        behind_literal(outside::json_char(c) + rest) == behind_literal(rest),
{
    let piece = outside::json_char(c);
    let s = piece + rest;
    if piece.len() == 1 {
        assert(s.skip(1) == rest);
    } else {
        assert(s[0] == '\\');
        if piece.len() == 2 {
            assert(s.skip(2) == rest);
        } else {
            let a = s.skip(2);
            assert(a[0] == '0' && a.skip(1)[0] == '0');
            assert(a.skip(1).skip(1)[0] == piece[4]);
            assert(a.skip(1).skip(1).skip(1)[0] == piece[5]);
            assert(a.skip(1).skip(1).skip(1).skip(1) == rest);
            reveal_with_fuel(behind_literal, 6);
        }
    }
}

/// A string written into a script ends where its own closing quote stands, whatever it says.
pub proof fn law_literal_ends_at_its_quote(s: Seq<char>, tail: Seq<char>)
    ensures
        behind_literal(outside::json_body(s) + seq!['"'] + tail) == Some(tail),
    decreases s.len(),
{
    let quote = seq!['"'];
    if s.len() == 0 {
        let text = outside::json_body(s) + quote + tail;
        assert(text[0] == '"');
        assert(text.skip(1) == tail);
    } else {
        let c = s[0];
        let rest = s.skip(1);
        assert(seq![c] + rest == s);
        lemma_body_from_the_front(c, rest);
        law_literal_ends_at_its_quote(rest, tail);
        let after = outside::json_body(rest) + quote + tail;
        assert(outside::json_body(s) + quote + tail == outside::json_char(c) + after);
        lemma_literal_step(c, after);
    }
}

/// An object stands in braces and holds each of its members, its name as a JSON string, a colon and
/// its value.
pub proof fn law_objects_hold_their_members(members: Seq<(Seq<char>, Seq<char>)>, i: int)
    requires
        0 <= i < members.len(),
    ensures
        object(members)[0] == '{',
        object(members).last() == '}',
        text::occurs_in(
            object(members),
            outside::json_string(members[i].0) + seq![':'] + members[i].1,
        ),
{
    reveal_strlit("{");
    reveal_strlit("}");
    reveal_strlit(":");
    assert(":"@ =~= seq![':']);
    let piece = member(members[i].0, members[i].1);
    assert(piece =~= outside::json_string(members[i].0) + seq![':'] + members[i].1);
    let at = lemma_joined_holds(members, i);
    let whole = object(members);
    assert(whole.subrange(at + 1, at + 1 + piece.len()) =~= joined(members).subrange(
        at,
        at + piece.len(),
    ));
    assert(text::occurs_at(whole, piece, at + 1));
}

proof fn lemma_joined_holds(members: Seq<(Seq<char>, Seq<char>)>, i: int) -> (at: int)
    requires
        0 <= i < members.len(),
    ensures
        text::occurs_at(joined(members), member(members[i].0, members[i].1), at),
    decreases members.len(),
{
    let piece = member(members[i].0, members[i].1);
    let whole = joined(members);
    if members.len() == 1 {
        assert(whole.subrange(0, piece.len() as int) =~= piece);
        0
    } else if i == members.len() - 1 {
        let at = whole.len() - piece.len();
        assert(whole.subrange(at, at + piece.len()) =~= piece);
        at
    } else {
        let shorter = members.drop_last();
        let at = lemma_joined_holds(shorter, i);
        assert(shorter[i] == members[i]);
        assert(whole.subrange(at, at + piece.len()) =~= joined(shorter).subrange(
            at,
            at + piece.len(),
        ));
        at
    }
}

} // verus!
