use vstd::prelude::*;
use vstd::utf8::{encode_utf8, is_char_boundary};

use crate::cursor::{can_move_left, can_move_right, moved_left, moved_right, Cursor};
use crate::paths::{
    components, is_name, lemma_components_join, lemma_components_join_all, lemma_components_names,
    path_components, path_join, path_join_all, path_push,
};
use crate::rush::Rush;
use crate::text::{
    insert_char_at, insert_str_at, lemma_encode_utf8_concat, lemma_encode_utf8_injective,
    remove_byte_range, str_eq,
};

verus! {

/// The working directory as the prompt shows it: with the home directory's components
/// replaced by `~` where they lead the working directory's, else `None`.
pub open spec fn shortened(home: Seq<char>, pwd: Seq<char>) -> Option<Seq<char>> {
    let h = components(home);
    let p = components(pwd);
    if h.len() <= p.len() && h == p.take(h.len() as int) {
        Some(path_join_all(seq!['~'], p.skip(h.len() as int)))
    } else {
        None
    }
}

/// The cursor after `n` steps right, each widening the line by one.
pub open spec fn moved_right_n(c: Cursor, n: nat) -> Cursor
    decreases n,
{
    if n == 0 {
        c
    } else {
        moved_right(moved_right_n(c, (n - 1) as nat), true)
    }
}

/// The byte offset into the input at which the cursor stands.
pub open spec fn input_offset(c: Cursor) -> int {
    c.cursor_location.unwrap() - c.min_cursor.unwrap()
}

/// The cursor's columns are known and it does not stand left of the input.
pub open spec fn cursor_in_input(c: Cursor) -> bool {
    &&& c.min_cursor is Some
    &&& c.cursor_location is Some
    &&& c.min_cursor.unwrap() <= c.cursor_location.unwrap()
}

proof fn lemma_moved_right_n_keeps_min(c: Cursor, n: nat)
    requires
        c.max_cursor is Some,
        c.cursor_location is Some,
    ensures
        moved_right_n(c, n).min_cursor == c.min_cursor,
        moved_right_n(c, n).max_cursor is Some,
        moved_right_n(c, n).cursor_location is Some,
        moved_right_n(c, n).max_cursor.unwrap() == c.max_cursor.unwrap() + n || c.max_cursor.unwrap() + n > u16::MAX,
    decreases n,
{
    if n > 0 {
        lemma_moved_right_n_keeps_min(c, (n - 1) as nat);
    }
}

/// A character may be inserted at the cursor: the cursor stands at a character
/// boundary of the input, and the line may widen.
pub open spec fn append_char_ok(pre: Rush) -> bool {
    &&& cursor_in_input(pre.cursor)
    &&& can_move_right(pre.cursor, true)
    &&& is_char_boundary(encode_utf8(pre.parser.input@), input_offset(pre.cursor))
}

/// `post` is `pre` with `c` inserted at the cursor's byte offset and the cursor moved
/// right, widening the line.
pub open spec fn append_char_post(pre: Rush, post: Rush, c: char) -> bool {
    &&& encode_utf8(post.parser.input@) == {
        let b = encode_utf8(pre.parser.input@);
        let i = input_offset(pre.cursor);
        b.subrange(0, i) + encode_utf8(seq![c]) + b.subrange(i, b.len() as int)
    }
    &&& post.cursor == moved_right(pre.cursor, true)
    &&& post.parser.execute == pre.parser.execute
    &&& post.parser.output == pre.parser.output
    &&& post.history == pre.history
    &&& post.only_cursor_and_parser_changed(pre)
}

/// The text `s` may be inserted at the cursor: the cursor stands at a character
/// boundary of the input, and the line may widen by the bytes of `s`.
pub open spec fn append_input_ok(pre: Rush, s: Seq<char>) -> bool {
    &&& cursor_in_input(pre.cursor)
    &&& pre.cursor.max_cursor is Some
    &&& pre.cursor.max_cursor.unwrap() + encode_utf8(s).len() <= u16::MAX
    &&& is_char_boundary(encode_utf8(pre.parser.input@), input_offset(pre.cursor))
}

/// `post` is `pre` with `s` inserted at the cursor's byte offset and the cursor moved
/// right once per byte of `s`, widening the line each time.
pub open spec fn append_input_post(pre: Rush, post: Rush, s: Seq<char>) -> bool {
    &&& encode_utf8(post.parser.input@) == {
        let b = encode_utf8(pre.parser.input@);
        let i = input_offset(pre.cursor);
        b.subrange(0, i) + encode_utf8(s) + b.subrange(i, b.len() as int)
    }
    &&& post.cursor == moved_right_n(pre.cursor, encode_utf8(s).len())
    &&& post.parser.execute == pre.parser.execute
    &&& post.parser.output == pre.parser.output
    &&& post.history == pre.history
    &&& post.only_cursor_and_parser_changed(pre)
}

/// The byte before the cursor may be removed: on a non-empty line, the cursor stands
/// right after a one-byte character, and the line may narrow.
pub open spec fn backspace_ok(pre: Rush) -> bool {
    pre.parser.input@.len() > 0 ==> {
        &&& cursor_in_input(pre.cursor)
        &&& input_offset(pre.cursor) >= 1
        &&& is_char_boundary(encode_utf8(pre.parser.input@), input_offset(pre.cursor) - 1)
        &&& is_char_boundary(encode_utf8(pre.parser.input@), input_offset(pre.cursor))
        &&& can_move_left(pre.cursor, true)
    }
}

/// `post` is `pre` with the byte before the cursor removed and the cursor moved left,
/// narrowing the line; an empty line is left as it is.
pub open spec fn backspace_post(pre: Rush, post: Rush) -> bool {
    &&& pre.parser.input@.len() == 0 ==> post == pre
    &&& pre.parser.input@.len() > 0 ==> {
        &&& encode_utf8(post.parser.input@) == {
            let b = encode_utf8(pre.parser.input@);
            let i = input_offset(pre.cursor);
            b.subrange(0, i - 1) + b.subrange(i, b.len() as int)
        }
        &&& post.cursor == moved_left(pre.cursor, true)
    }
    &&& post.parser.execute == pre.parser.execute
    &&& post.parser.output == pre.parser.output
    &&& post.history == pre.history
    &&& post.only_cursor_and_parser_changed(pre)
}

impl Rush {
    /// Empties the line and forgets the cursor's columns.
    pub fn reset_prompt(&mut self)
        ensures
            final(self).parser.input@ == Seq::<char>::empty(),
            final(self).parser.execute == old(self).parser.execute,
            final(self).parser.output == old(self).parser.output,
            final(self).cursor.is_cleared(),
            final(self).history == old(self).history,
            final(self).only_cursor_and_parser_changed(*old(self)),
    {
        self.parser.input = String::new();
        self.cursor.clear();
    }

    /// The working directory with a leading home directory written as `~`.
    pub fn shortened_home(&self) -> (r: Option<String>)
        ensures
            r matches Some(s) ==> shortened(self.home@, self.pwd@) == Some(s@),
            r is None ==> shortened(self.home@, self.pwd@) is None,
    {
        let home = path_components(self.home.as_str());
        let pwd = path_components(self.pwd.as_str());
        let ghost h = components(self.home@);
        let ghost p = components(self.pwd@);
        proof {
            assert(home@.len() == h.len());
            assert(pwd@.len() == p.len());
        }
        let mut i: usize = 0;
        while i < home.len()
            invariant
                home@.map_values(|c: String| c@) == h,
                pwd@.map_values(|c: String| c@) == p,
                h == components(self.home@),
                p == components(self.pwd@),
                i <= home@.len(),
                i <= pwd@.len(),
                forall|j: int| 0 <= j < i ==> h[j] == p[j],
            decreases home.len() - i,
        {
            let mut matched = false;
            if i < pwd.len() {
                matched = str_eq(home[i].as_str(), pwd[i].as_str());
            }
            if !matched {
                proof {
                    assert(h[i as int] == home@[i as int]@);
                    if h.len() <= p.len() {
                        assert(i < pwd@.len());
                        assert(p[i as int] == pwd@[i as int]@);
                        assert(h[i as int] != p[i as int]);
                        assert(p.take(h.len() as int)[i as int] == p[i as int]);
                        assert(h != p.take(h.len() as int));
                    } else {
                        assert(h.len() > p.len());
                    }

                }
                return None;
            }
            i = i + 1;
        }
        proof {
            assert(h =~= p.take(h.len() as int));
        }
        let ghost rest = p.skip(h.len() as int);
        let mut new_pwd = String::new();
        new_pwd.push('~');
        let mut k: usize = i;
        proof {
            assert(rest.take(0) =~= Seq::<Seq<char>>::empty());
            assert(new_pwd@ =~= seq!['~']);
        }
        while k < pwd.len()
            invariant
                pwd@.map_values(|c: String| c@) == p,
                i == h.len(),
                i <= k <= pwd@.len(),
                rest == p.skip(i as int),
                new_pwd@ == path_join_all(seq!['~'], rest.take(k - i)),
            decreases pwd.len() - k,
        {
            new_pwd = path_push(&new_pwd, pwd[k].as_str());
            proof {
                assert(rest.take(k + 1 - i).drop_last() =~= rest.take(k - i));
                assert(rest.take(k + 1 - i).last() == pwd@[k as int]@);
            }
            k = k + 1;
        }
        proof {
            assert(rest.take(k - i) =~= rest);
        }
        Some(new_pwd)
    }

    /// Inserts `c` at the cursor and moves the cursor right, widening the line.
    pub fn append_char(&mut self, c: char)
        requires
            append_char_ok(*old(self)),
        ensures
            append_char_post(*old(self), *final(self), c),
    {
        let current_index = self.cursor.cursor_location.unwrap() - self.cursor.min_cursor.unwrap();
        let current_index = current_index as usize;
        self.parser.input = insert_char_at(self.parser.input.as_str(), current_index, c);
        self.cursor_move_right(true);
    }

    /// Inserts `s` at the cursor and moves the cursor right once per byte of `s`,
    /// widening the line each time.
    pub fn append_input(&mut self, s: &str)
        requires
            append_input_ok(*old(self), s@),
        ensures
            append_input_post(*old(self), *final(self), s@),
    {
        let current_index = self.cursor.cursor_location.unwrap() - self.cursor.min_cursor.unwrap();
        let current_index = current_index as usize;
        self.parser.input = insert_str_at(self.parser.input.as_str(), current_index, s);
        let n = s.len();
        let ghost start = *self;
        let mut j: usize = 0;
        while j < n
            invariant
                n == encode_utf8(s@).len(),
                j <= n,
                start.cursor == old(self).cursor,
                old(self).cursor.max_cursor is Some,
                old(self).cursor.cursor_location is Some,
                old(self).cursor.max_cursor.unwrap() + n <= u16::MAX,
                self.cursor == moved_right_n(old(self).cursor, j as nat),
                self.only_cursor_changed(start),
            decreases n - j,
        {
            proof {
                lemma_moved_right_n_keeps_min(old(self).cursor, j as nat);
            }
            self.cursor_move_right(true);
            j = j + 1;
        }
    }

    /// Deletes the byte before the cursor and moves the cursor left, narrowing the line;
    /// nothing happens on an empty line.
    pub fn backspace(&mut self)
        requires
            backspace_ok(*old(self)),
        ensures
            backspace_post(*old(self), *final(self)),
    {
        if self.parser.input.as_str().is_empty() {
            return;
        }
        let current_index = self.cursor.cursor_location.unwrap() - self.cursor.min_cursor.unwrap();
        let current_index = current_index as usize;
        self.parser.input = remove_byte_range(self.parser.input.as_str(), current_index - 1, current_index);
        self.cursor_move_left(true);
    }

    /// Records the column at which the input starts, where it is not known yet; the
    /// right bound starts there too.
    pub fn note_input_start(&mut self, column: u16)
        ensures
            old(self).cursor.min_cursor is None ==> final(self).cursor.min_cursor == Some(column)
                && final(self).cursor.max_cursor == Some(column),
            old(self).cursor.min_cursor is Some ==> final(self).cursor == old(self).cursor,
            final(self).cursor.cursor_location == old(self).cursor.cursor_location,
            final(self).parser == old(self).parser,
            final(self).history == old(self).history,
            final(self).only_cursor_changed(*old(self)),
    {
        if self.cursor.min_cursor.is_none() {
            self.cursor.min_cursor = Some(column);
            self.cursor.max_cursor = self.cursor.min_cursor;
        }
    }

    /// Records the column at which the cursor stands after the input was drawn, where it
    /// is not known yet.
    pub fn note_cursor_location(&mut self, column: u16)
        ensures
            old(self).cursor.cursor_location is None ==> final(self).cursor.cursor_location == Some(column),
            old(self).cursor.cursor_location is Some ==> final(self).cursor.cursor_location == old(self).cursor.cursor_location,
            final(self).cursor.min_cursor == old(self).cursor.min_cursor,
            final(self).cursor.max_cursor == old(self).cursor.max_cursor,
            final(self).parser == old(self).parser,
            final(self).history == old(self).history,
            final(self).only_cursor_changed(*old(self)),
    {
        if self.cursor.cursor_location.is_none() {
            self.cursor.cursor_location = Some(column);
        }
    }

    /// Whether a character may be inserted at the cursor.
    pub fn can_append_char(&self) -> (ok: bool)
        ensures
            ok == append_char_ok(*self),
    {
        match (self.cursor.min_cursor, self.cursor.cursor_location, self.cursor.max_cursor) {
            (Some(min), Some(loc), Some(max)) => min <= loc && max < u16::MAX
                && self.parser.input.as_str().is_char_boundary((loc - min) as usize),
            _ => false,
        }
    }

    /// Whether `s` may be inserted at the cursor.
    pub fn can_append_input(&self, s: &str) -> (ok: bool)
        ensures
            ok == append_input_ok(*self, s@),
    {
        match (self.cursor.min_cursor, self.cursor.cursor_location, self.cursor.max_cursor) {
            (Some(min), Some(loc), Some(max)) => min <= loc && s.as_bytes().len() <= (u16::MAX - max) as usize
                && self.parser.input.as_str().is_char_boundary((loc - min) as usize),
            _ => false,
        }
    }

    /// Whether the byte before the cursor may be removed.
    pub fn can_backspace(&self) -> (ok: bool)
        ensures
            ok == backspace_ok(*self),
    {
        if self.parser.input.as_str().is_empty() {
            return true;
        }
        match (self.cursor.min_cursor, self.cursor.cursor_location, self.cursor.max_cursor) {
            (Some(min), Some(loc), Some(max)) => {
                if min > loc || loc - min < 1 || max == 0 {
                    return false;
                }
                let i = (loc - min) as usize;
                self.parser.input.as_str().is_char_boundary(i - 1)
                    && self.parser.input.as_str().is_char_boundary(i)
            },
            _ => false,
        }
    }
}

/// Backspace removes a one-byte character just typed, and puts the cursor back where it
/// stood, when the cursor stood within the line.
pub proof fn law_backspace_undoes_append_char(a: Rush, b: Rush, d: Rush, c: char)
    requires
        (c as u32) < 0x80,
        append_char_ok(a),
        a.cursor.cursor_location.unwrap() <= a.cursor.max_cursor.unwrap(),
        append_char_post(a, b, c),
        backspace_post(b, d),
    ensures
        d.parser.input@ == a.parser.input@,
        d.cursor == a.cursor,
{
    let x = encode_utf8(a.parser.input@);
    let i = input_offset(a.cursor);
    let e = encode_utf8(seq![c]);
    assert(e.len() == 1) by {
        reveal_with_fuel(encode_utf8, 2);
        assert(seq![c].drop_first() =~= Seq::<char>::empty());
        assert(vstd::utf8::has_width_1_encoding(c as u32));
    }
    assert(0 <= i <= x.len()) by {
        vstd::utf8::encode_utf8_valid_utf8(a.parser.input@);
        reveal_with_fuel(is_char_boundary, 1);
    }
    assert(b.parser.input@.len() > 0) by {
        if b.parser.input@.len() == 0 {
            assert(encode_utf8(b.parser.input@) =~= Seq::<u8>::empty());
        }
    }
    assert(input_offset(b.cursor) == i + 1);
    let y = encode_utf8(b.parser.input@);
    assert(y == x.subrange(0, i) + e + x.subrange(i, x.len() as int));
    assert(y.subrange(0, i) =~= x.subrange(0, i));
    assert(y.subrange(i + 1, y.len() as int) =~= x.subrange(i, x.len() as int));
    assert(y.subrange(0, i) + y.subrange(i + 1, y.len() as int) =~= x);
    crate::text::lemma_encode_utf8_injective(d.parser.input@, a.parser.input@);
}

/// A working directory that is the home directory is shown as `~`.
pub proof fn law_home_is_tilde(home: Seq<char>)
    ensures
        shortened(home, home) == Some(seq!['~']),
{
    let h = components(home);
    assert(h.take(h.len() as int) =~= h);
    assert(h.skip(h.len() as int) =~= Seq::<Seq<char>>::empty());
}

/// Expanding the `~` of the directory the prompt shows with the home directory gives
/// back the working directory, as paths compare (by their components): the shortened
/// path is `~` followed by some names, and the home directory joined with those names
/// has the working directory's components. The home directory has at least one
/// component.
pub proof fn law_home_expands_back(home: Seq<char>, pwd: Seq<char>)
    requires
        components(home).len() > 0,
        shortened(home, pwd) is Some,
    ensures
        components(shortened(home, pwd).unwrap())[0] == seq!['~'],
        components(path_join_all(home, components(shortened(home, pwd).unwrap()).skip(1)))
            == components(pwd),
{
    let h = components(home);
    let p = components(pwd);
    let rest = p.skip(h.len() as int);
    let tilde = seq!['~'];
    lemma_components_names(pwd);
    assert forall|i: int| 0 <= i < rest.len() implies is_name(#[trigger] rest[i]) by {
        assert(rest[i] == p[h.len() + i]);
    }
    assert(is_name(tilde)) by {
        if tilde.contains('/') {
            let i = choose|i: int| 0 <= i < tilde.len() && tilde[i] == '/';
            assert(tilde[i] == '~');
        }
        assert(tilde != seq!['.']) by {
            assert(tilde[0] != seq!['.'][0]);
        }
    }
    lemma_components_join(Seq::<char>::empty(), tilde);
    assert(path_join(Seq::<char>::empty(), tilde) =~= tilde);
    assert(components(Seq::<char>::empty()) =~= Seq::<Seq<char>>::empty()) by {
        reveal_with_fuel(crate::paths::kept_segments, 2);
        assert(crate::paths::segments(Seq::<char>::empty()) =~= seq![Seq::<char>::empty()]);
    }
    assert(components(tilde) =~= seq![tilde]);
    lemma_components_join_all(tilde, rest);
    lemma_components_join_all(home, rest);
    let short = shortened(home, pwd).unwrap();
    assert(components(short) =~= seq![tilde] + rest);
    assert(components(short).skip(1) =~= rest);
    assert(h + rest =~= p);
}

/// Every character of `s` is ASCII.
pub open spec fn is_ascii_text(s: Seq<char>) -> bool {
    forall|k: int| 0 <= k < s.len() ==> (s[k] as u32) < 0x80
}

/// ASCII text takes one byte per character.
proof fn lemma_ascii_bytes(s: Seq<char>)
    requires
        is_ascii_text(s),
    ensures
        encode_utf8(s).len() == s.len(),
    decreases s.len(),
{
    if s.len() > 0 {
        assert(is_ascii_text(s.drop_first())) by {
            assert forall|k: int| 0 <= k < s.drop_first().len() implies (s.drop_first()[k] as u32)
                < 0x80 by {
                assert(s.drop_first()[k] == s[k + 1]);
            }
        }
        lemma_ascii_bytes(s.drop_first());
    }
}

/// After typing the first `k` characters of ASCII text `s`, the line holds them at the
/// cursor's first offset, and the cursor has moved right once for each.
proof fn lemma_typed_prefix(a: Rush, steps: Seq<Rush>, s: Seq<char>, k: nat)
    requires
        is_ascii_text(s),
        cursor_in_input(a.cursor),
        a.cursor.max_cursor is Some,
        a.cursor.cursor_location.unwrap() <= a.cursor.max_cursor.unwrap(),
        input_offset(a.cursor) <= encode_utf8(a.parser.input@).len(),
        a.cursor.max_cursor.unwrap() + s.len() <= u16::MAX,
        steps.len() == s.len() + 1,
        steps[0] == a,
        forall|j: int| 0 <= j < s.len() ==> append_char_post(steps[j], #[trigger] steps[j + 1], s[j]),
        k <= s.len(),
    ensures
        encode_utf8(steps[k as int].parser.input@) == encode_utf8(a.parser.input@).subrange(
            0,
            input_offset(a.cursor),
        ) + encode_utf8(s.take(k as int)) + encode_utf8(a.parser.input@).subrange(
            input_offset(a.cursor),
            encode_utf8(a.parser.input@).len() as int,
        ),
        steps[k as int].cursor == moved_right_n(a.cursor, k),
        input_offset(steps[k as int].cursor) == input_offset(a.cursor) + k,
        steps[k as int].cursor.max_cursor == Some((a.cursor.max_cursor.unwrap() + k) as u16),
        steps[k as int].cursor.cursor_location.unwrap() <= steps[k as int].cursor.max_cursor.unwrap(),
        steps[k as int].cursor.min_cursor == a.cursor.min_cursor,
        steps[k as int].parser.execute == a.parser.execute,
        steps[k as int].parser.output == a.parser.output,
        steps[k as int].history == a.history,
        steps[k as int].only_cursor_and_parser_changed(a),
    decreases k,
{
    let bytes = encode_utf8(a.parser.input@);
    let i = input_offset(a.cursor);
    if k == 0 {
        assert(s.take(0) =~= Seq::<char>::empty());
        assert(encode_utf8(Seq::<char>::empty()) =~= Seq::<u8>::empty());
        assert(bytes.subrange(0, i) + encode_utf8(s.take(0)) + bytes.subrange(i, bytes.len() as int)
            =~= bytes);
    } else {
        let ki: int = k - 1;
        lemma_typed_prefix(a, steps, s, (k - 1) as nat);
        let pre = steps[ki];
        let post = steps[ki + 1];
        let c = s[ki];
        assert(append_char_post(pre, post, c));
        let e = encode_utf8(pre.parser.input@);
        let t = encode_utf8(s.take(ki));
        assert(is_ascii_text(s.take(ki))) by {
            assert forall|j: int| 0 <= j < s.take(ki).len() implies (s.take(ki)[j] as u32) < 0x80 by {
                assert(s.take(ki)[j] == s[j]);
            }
        }
        lemma_ascii_bytes(s.take(ki));
        assert(e.subrange(0, i + ki) =~= bytes.subrange(0, i) + t);
        assert(e.subrange(i + ki, e.len() as int) =~= bytes.subrange(i, bytes.len() as int));
        lemma_encode_utf8_concat(s.take(ki), seq![c]);
        assert(s.take(ki + 1) =~= s.take(ki) + seq![c]);
        assert(encode_utf8(post.parser.input@) =~= bytes.subrange(0, i) + encode_utf8(s.take(ki + 1))
            + bytes.subrange(i, bytes.len() as int));
    }
}

/// Pasting ASCII text does what typing its characters one by one does. From a cursor
/// that stands within the line (by its offset and by its column), with room for the
/// text, `append_char` of each character
/// in turn (the states `steps`) ends with the line, the cursor and everything else that
/// `append_input` of the whole text gives.
pub proof fn law_paste_is_typing(a: Rush, steps: Seq<Rush>, s: Seq<char>, b: Rush)
    requires
        is_ascii_text(s),
        cursor_in_input(a.cursor),
        a.cursor.max_cursor is Some,
        a.cursor.cursor_location.unwrap() <= a.cursor.max_cursor.unwrap(),
        input_offset(a.cursor) <= encode_utf8(a.parser.input@).len(),
        a.cursor.max_cursor.unwrap() + s.len() <= u16::MAX,
        steps.len() == s.len() + 1,
        steps[0] == a,
        forall|k: int| 0 <= k < s.len() ==> append_char_post(steps[k], #[trigger] steps[k + 1], s[k]),
        append_input_post(a, b, s),
    ensures
        steps.last().parser.input@ == b.parser.input@,
        steps.last().cursor == b.cursor,
        steps.last().parser.execute == b.parser.execute,
        steps.last().parser.output == b.parser.output,
        steps.last().history == b.history,
        steps.last().only_cursor_and_parser_changed(b),
{
    let n = s.len();
    lemma_ascii_bytes(s);
    lemma_typed_prefix(a, steps, s, n);
    assert(s.take(n as int) =~= s);
    assert(steps.last() == steps[n as int]);
    lemma_encode_utf8_injective(steps[n as int].parser.input@, b.parser.input@);
}
/// A working directory inside the home directory (whose components start with the home
/// directory's) is always shown shortened, and one outside it never is.
pub proof fn law_inside_home_is_shortened(home: Seq<char>, pwd: Seq<char>)
    ensures
        components(home).len() <= components(pwd).len() && (forall|i: int|
            0 <= i < components(home).len() ==> components(home)[i] == components(pwd)[i])
            <==> shortened(home, pwd) is Some,
{
    let h = components(home);
    let p = components(pwd);
    if h.len() <= p.len() && (forall|i: int| 0 <= i < h.len() ==> h[i] == p[i]) {
        assert(h =~= p.take(h.len() as int));
    }
    if shortened(home, pwd) is Some {
        assert forall|i: int| 0 <= i < h.len() implies h[i] == p[i] by {
            assert(h[i] == p.take(h.len() as int)[i]);
        }
    }
}

} // verus!
