//! Editing of a text box: the text as UTF-8 bytes and a cursor that is a byte offset.

use vstd::prelude::*;
use vstd::utf8::*;

verus! {

broadcast use vstd::utf8::group_utf8_lib;

/// Whether byte offset `i` starts a character or ends the text, by the rule of
/// `str::is_char_boundary`: offset 0, the length, or an offset whose byte is not a
/// continuation byte.
pub open spec fn boundary(b: Seq<u8>, i: int) -> bool {
    i == 0 || i == b.len() || (0 < i < b.len() && !is_continuation_byte(b[i]))
}

/// Where the cursor lands when moved one character to the left.
pub open spec fn left_of(b: Seq<u8>, i: int) -> int
    decreases i,
{
    if i <= 0 {
        0
    } else if boundary(b, i - 1) {
        i - 1
    } else {
        left_of(b, i - 1)
    }
}

/// Where the cursor lands when moved one character to the right.
pub open spec fn right_of(b: Seq<u8>, i: int) -> int
    decreases b.len() - i,
{
    if i >= b.len() {
        i
    } else if boundary(b, i + 1) {
        i + 1
    } else {
        right_of(b, i + 1)
    }
}

/// The text after `c` is inserted at byte offset `i`.
pub open spec fn inserted(b: Seq<u8>, i: int, c: char) -> Seq<u8> {
    b.subrange(0, i) + encode_scalar(c as u32) + b.subrange(i, b.len() as int)
}

/// The number of bytes of the character that starts at byte offset `i`.
pub open spec fn width_at(b: Seq<u8>, i: int) -> int {
    length_of_first_scalar(b.subrange(i, b.len() as int))
}

/// The text after the character at byte offset `i` is removed, if there is one.
pub open spec fn removed(b: Seq<u8>, i: int) -> Seq<u8> {
    if i < b.len() {
        b.subrange(0, i) + b.subrange(i + width_at(b, i), b.len() as int)
    } else {
        b
    }
}

/// The UTF-8 encoding of `c`.
pub fn encode_char(c: char) -> (v: Vec<u8>)
    ensures
        v@ == encode_scalar(c as u32),
        1 <= v@.len() <= 4,
{
    let s = c as u32;
    let mut v: Vec<u8> = Vec::new();
    if s <= 0x7F {
        v.push((s & 0x7F) as u8);
    } else if s <= 0x7FF {
        v.push(0xC0 | ((s >> 6) & 0x1F) as u8);
        v.push(0x80 | (s & 0x3F) as u8);
    } else if s <= 0xFFFF {
        v.push(0xE0 | ((s >> 12) & 0x0F) as u8);
        v.push(0x80 | ((s >> 6) & 0x3F) as u8);
        v.push(0x80 | (s & 0x3F) as u8);
    } else {
        v.push(0xF0 | ((s >> 18) & 0x7) as u8);
        v.push(0x80 | ((s >> 12) & 0x3F) as u8);
        v.push(0x80 | ((s >> 6) & 0x3F) as u8);
        v.push(0x80 | (s & 0x3F) as u8);
    }
    proof {
        char_is_scalar(c);
        assert(v@ =~= encode_scalar(s));
    }
    v
}

/// Whether byte offset `i` of `b` starts a character or ends the text.
pub fn at_char_boundary(b: &Vec<u8>, i: usize) -> (r: bool)
    ensures
        r == boundary(b@, i as int),
{
    if i == 0 {
        true
    } else if i < b.len() {
        let x = b[i];
        x < 0x80 || x >= 0xC0
    } else {
        i == b.len()
    }
}

/// Moves the cursor to the start of the previous character, or leaves it at 0.
pub fn move_left(b: &Vec<u8>, index: &mut usize)
    ensures
        *final(index) == left_of(b@, *old(index) as int),
{
    loop
        invariant_except_break
            left_of(b@, *index as int) == left_of(b@, *old(index) as int),
        ensures
            *index == left_of(b@, *old(index) as int),
        decreases *index,
    {
        if *index == 0 {
            break;
        }
        *index -= 1;
        if at_char_boundary(b, *index) {
            break;
        }
    }
}

/// Moves the cursor to the start of the next character, or leaves it at the end.
pub fn move_right(b: &Vec<u8>, index: &mut usize)
    requires
        *old(index) <= b@.len(),
    ensures
        *final(index) == right_of(b@, *old(index) as int),
{
    loop
        invariant_except_break
            *index <= b@.len(),
            right_of(b@, *index as int) == right_of(b@, *old(index) as int),
        ensures
            *index == right_of(b@, *old(index) as int),
        decreases b@.len() - *index,
    {
        if *index == b.len() {
            break;
        }
        *index += 1;
        if at_char_boundary(b, *index) {
            break;
        }
    }
}

/// Inserts `c` at the cursor and moves the cursor behind it.
pub fn insert_char(b: &mut Vec<u8>, index: &mut usize, c: char)
    requires
        boundary(old(b)@, *old(index) as int),
        old(b)@.len() + 4 <= usize::MAX,
    ensures
        final(b)@ == inserted(old(b)@, *old(index) as int, c),
        *final(index) == *old(index) + encode_scalar(c as u32).len(),
{
    let enc = encode_char(c);
    let at = *index;
    let mut out: Vec<u8> = Vec::new();
    let mut k: usize = 0;
    while k < at
        invariant
            0 <= k <= at <= b@.len(),
            out@ == b@.subrange(0, k as int),
        decreases at - k,
    {
        out.push(b[k]);
        proof {
            assert(out@ =~= b@.subrange(0, k + 1));
        }
        k += 1;
    }
    let mut j: usize = 0;
    while j < enc.len()
        invariant
            0 <= j <= enc@.len() <= 4,
            at <= b@.len(),
            out@ == b@.subrange(0, at as int) + enc@.subrange(0, j as int),
        decreases enc@.len() - j,
    {
        out.push(enc[j]);
        proof {
            assert(out@ =~= b@.subrange(0, at as int) + enc@.subrange(0, j + 1));
        }
        j += 1;
    }
    let mut k: usize = at;
    while k < b.len()
        invariant
            at <= k <= b@.len(),
            b@.len() + 4 <= usize::MAX,
            out@ == b@.subrange(0, at as int) + enc@ + b@.subrange(at as int, k as int),
        decreases b@.len() - k,
    {
        out.push(b[k]);
        proof {
            assert(out@ =~= b@.subrange(0, at as int) + enc@ + b@.subrange(at as int, k + 1));
        }
        k += 1;
    }
    proof {
        assert(enc@.subrange(0, enc@.len() as int) =~= enc@);
        assert(b@.subrange(at as int, b@.len() as int) == old(b)@.subrange(at as int, old(b)@.len() as int));
    }
    *b = out;
    *index = at + enc.len();
}

/// The number of bytes of a character whose first byte is `x`.
fn width_of_leading(x: u8) -> (w: usize)
    ensures
        !is_continuation_byte(x) ==> w == (if is_leading_byte_width_1(x) {
            1int
        } else if is_leading_byte_width_2(x) {
            2int
        } else if is_leading_byte_width_3(x) {
            3int
        } else {
            4int
        }),
        1 <= w <= 4,
{
    if x < 0x80 {
        1
    } else if x < 0xE0 {
        2
    } else if x < 0xF0 {
        3
    } else {
        4
    }
}

/// Removes the character at the cursor, if the cursor is not at the end.
pub fn remove_char(b: &mut Vec<u8>, index: &mut usize)
    requires
        valid_utf8(old(b)@),
        boundary(old(b)@, *old(index) as int),
    ensures
        final(b)@ == removed(old(b)@, *old(index) as int),
        *final(index) == *old(index),
{
    let at = *index;
    if at < b.len() {
        let ghost bs = b@;
        proof {
            lemma_boundary_is_char_boundary(bs, at as int);
            valid_utf8_split(bs, at as int);
            let suffix = bs.subrange(at as int, bs.len() as int);
            assert(suffix[0] == bs[at as int]);
            assert(valid_first_scalar(suffix));
        }
        let w = width_of_leading(b[at]);
        proof {
            let suffix = bs.subrange(at as int, bs.len() as int);
            assert(!is_continuation_byte(bs[at as int]));
            assert(w == width_at(bs, at as int));
            assert(at + w <= bs.len());
        }
        let mut out: Vec<u8> = Vec::new();
        let mut k: usize = 0;
        while k < at
            invariant
                0 <= k <= at < b@.len(),
                out@ == b@.subrange(0, k as int),
            decreases at - k,
        {
            out.push(b[k]);
            proof {
                assert(out@ =~= b@.subrange(0, k + 1));
            }
            k += 1;
        }
        let mut k: usize = at + w;
        while k < b.len()
            invariant
                at + w <= k <= b@.len(),
                out@ == b@.subrange(0, at as int) + b@.subrange(at + w, k as int),
            decreases b@.len() - k,
        {
            out.push(b[k]);
            proof {
                assert(out@ =~= b@.subrange(0, at as int) + b@.subrange(at + w, k + 1));
            }
            k += 1;
        }
        *b = out;
    }
}

/// On valid UTF-8, the byte rule for boundaries agrees with the character structure.
pub proof fn lemma_boundary_is_char_boundary(b: Seq<u8>, i: int)
    requires
        valid_utf8(b),
        0 <= i <= b.len(),
    ensures
        boundary(b, i) == is_char_boundary(b, i),
{
    is_char_boundary_start_end_of_seq(b);
    if 0 < i < b.len() {
        is_char_boundary_iff_not_is_continuation_byte(b, i);
    }
}

} // verus!

verus! {

/// A control character in the sense of `char::is_control`: Unicode category Cc, the code
/// points 0x00 to 0x1F and 0x7F to 0x9F.
pub open spec fn control(c: char) -> bool {
    (c as u32) <= 0x1F || (0x7F <= (c as u32) && (c as u32) <= 0x9F)
}

/// Whether `c` is a control character.
pub fn is_control(c: char) -> (r: bool)
    ensures
        r == control(c),
{
    let u = c as u32;
    u <= 0x1F || (0x7F <= u && u <= 0x9F)
}

/// The character that erases the character before the cursor.
pub const BACKSPACE: char = '\u{8}';

/// The character that erases the character at the cursor.
pub const DELETE: char = '\u{7f}';

/// The text and cursor after one received character: a printable one is inserted, backspace
/// erases to the left, delete erases at the cursor, other control characters do nothing.
pub open spec fn typed(b: Seq<u8>, cur: int, c: char) -> (Seq<u8>, int) {
    if !control(c) {
        (inserted(b, cur, c), cur + encode_scalar(c as u32).len())
    } else if c == BACKSPACE {
        let l = left_of(b, cur);
        (removed(b, l), l)
    } else if c == DELETE {
        (removed(b, cur), cur)
    } else {
        (b, cur)
    }
}

/// Whether typing `c` at `cur` stays clear of the panics of `String::insert` and
/// `String::remove`, which need the cursor on a character boundary.
pub open spec fn typing_ok(b: Seq<u8>, cur: int, c: char) -> bool {
    (!control(c) || c == DELETE) ==> boundary(b, cur)
}

/// The text and cursor after each of `cs` was received, in order.
pub open spec fn typed_all(b: Seq<u8>, cur: int, cs: Seq<char>) -> (Seq<u8>, int)
    decreases cs.len(),
{
    if cs.len() == 0 {
        (b, cur)
    } else {
        let (b1, c1) = typed_all(b, cur, cs.drop_last());
        typed(b1, c1, cs.last())
    }
}

/// Whether receiving each of `cs` in turn stays clear of panics.
pub open spec fn typing_all_ok(b: Seq<u8>, cur: int, cs: Seq<char>) -> bool
    decreases cs.len(),
{
    if cs.len() == 0 {
        true
    } else {
        let (b1, c1) = typed_all(b, cur, cs.drop_last());
        typing_all_ok(b, cur, cs.drop_last()) && typing_ok(b1, c1, cs.last())
    }
}

/// The arrow keys as they are this frame.
#[derive(Clone, Copy, PartialEq, Eq, Structural, Debug)]
pub struct ArrowKeys {
    pub left_pressed: bool,
    pub right_pressed: bool,
    pub left_just_pressed: bool,
    pub right_just_pressed: bool,
}

/// The cursor after the arrow keys were looked at: a cursor beyond the text goes back to 0;
/// a held arrow moves it when it was just pressed or when the repeat timer just finished;
/// left wins over right.
pub open spec fn after_arrows(b: Seq<u8>, cur: int, keys: ArrowKeys, repeat_due: bool) -> int {
    let c0 = if cur > b.len() { 0 } else { cur };
    if (keys.right_pressed || keys.left_pressed) && (keys.left_just_pressed || keys.right_just_pressed
        || repeat_due) {
        if keys.left_pressed {
            left_of(b, c0)
        } else {
            right_of(b, c0)
        }
    } else {
        c0
    }
}

/// The repeat timer of held arrow keys: it finishes each time `period` nanoseconds have run,
/// and carries what is left over into the next period.
pub struct RepeatTimer {
    elapsed: u64,
    period: u64,
}

impl RepeatTimer {
    /// The nanoseconds run since the timer last finished or was reset.
    pub closed spec fn spec_elapsed(&self) -> u64 {
        self.elapsed
    }

    /// The nanoseconds after which the timer finishes.
    pub closed spec fn spec_period(&self) -> u64 {
        self.period
    }

    /// The period is positive and less than a period has run.
    pub open spec fn wf(&self) -> bool {
        0 < self.spec_elapsed() + 1 <= self.spec_period()
    }

    /// A timer of `period` nanoseconds that has not run yet.
    pub fn new(period: u64) -> (t: RepeatTimer)
        requires
            period > 0,
        ensures
            t.wf(),
            t.spec_elapsed() == 0,
            t.spec_period() == period,
    {
        RepeatTimer { elapsed: 0, period }
    }

    /// Lets `delta` nanoseconds run; true when the timer finished during them.
    pub fn tick(&mut self, delta: u64) -> (finished: bool)
        requires
            old(self).wf(),
            old(self).spec_elapsed() + delta <= u64::MAX,
        ensures
            final(self).wf(),
            final(self).spec_period() == old(self).spec_period(),
            finished == (old(self).spec_elapsed() + delta >= old(self).spec_period()),
            final(self).spec_elapsed() == (old(self).spec_elapsed() + delta) % (old(self).spec_period() as int),
    {
        let total = self.elapsed + delta;
        self.elapsed = total % self.period;
        total >= self.period
    }

    /// The timer's part in one frame of a text box: it restarts when an arrow was just pressed
    /// and runs for `delta` nanoseconds while an arrow is held. True when the held arrow is
    /// due to repeat.
    pub fn frame(&mut self, keys: ArrowKeys, delta: u64) -> (due: bool)
        requires
            old(self).wf(),
            old(self).spec_elapsed() + delta <= u64::MAX,
        ensures
            final(self).wf(),
            final(self).spec_period() == old(self).spec_period(),
            ({
                let start = if repeat_resets_spec(keys) { 0 } else { old(self).spec_elapsed() as int };
                if keys.left_pressed || keys.right_pressed {
                    &&& due == (start + delta >= old(self).spec_period())
                    &&& final(self).spec_elapsed() == (start + delta) % (old(self).spec_period() as int)
                } else {
                    !due && final(self).spec_elapsed() == start
                }
            }),
    {
        if repeat_resets(keys) {
            self.elapsed = 0;
        }
        if repeat_ticks(keys) {
            self.tick(delta)
        } else {
            false
        }
    }
}

/// Whether an arrow was just pressed.
pub open spec fn repeat_resets_spec(keys: ArrowKeys) -> bool {
    keys.left_just_pressed || keys.right_just_pressed
}

/// Whether the repeat timer restarts this frame: when an arrow was just pressed.
pub fn repeat_resets(keys: ArrowKeys) -> (r: bool)
    ensures
        r == (keys.left_just_pressed || keys.right_just_pressed),
{
    keys.left_just_pressed || keys.right_just_pressed
}

/// Whether the repeat timer runs this frame: while an arrow is held.
pub fn repeat_ticks(keys: ArrowKeys) -> (r: bool)
    ensures
        r == (keys.left_pressed || keys.right_pressed),
{
    keys.left_pressed || keys.right_pressed
}

/// The cursor position after the arrow keys, see [`after_arrows`].
pub fn apply_arrows(b: &Vec<u8>, cursor: usize, keys: ArrowKeys, repeat_due: bool) -> (r: usize)
    ensures
        r == after_arrows(b@, cursor as int, keys, repeat_due),
        r <= b@.len(),
{
    let mut cur = cursor;
    if cur > b.len() {
        cur = 0;
    }
    if (keys.right_pressed || keys.left_pressed) && (keys.left_just_pressed || keys.right_just_pressed
        || repeat_due) {
        if keys.left_pressed {
            move_left(b, &mut cur);
            proof {
                lemma_left_of_bounds(b@, if cursor > b@.len() { 0 } else { cursor as int });
            }
        } else {
            move_right(b, &mut cur);
            proof {
                lemma_right_of_bounds(b@, if cursor > b@.len() { 0 } else { cursor as int });
            }
        }
    }
    cur
}

/// Applies one received character, see [`typed`].
pub fn type_char(b: &mut Vec<u8>, cursor: &mut usize, c: char)
    requires
        valid_utf8(old(b)@),
        *old(cursor) <= old(b)@.len(),
        typing_ok(old(b)@, *old(cursor) as int, c),
        old(b)@.len() + 4 <= usize::MAX,
    ensures
        (final(b)@, *final(cursor) as int) == typed(old(b)@, *old(cursor) as int, c),
        valid_utf8(final(b)@),
        *final(cursor) <= final(b)@.len(),
        final(b)@.len() <= old(b)@.len() + 4,
{
    if !is_control(c) {
        proof {
            lemma_insert_valid(b@, *cursor as int, c);
        }
        insert_char(b, cursor, c);
    } else if c == BACKSPACE {
        move_left(b, cursor);
        proof {
            lemma_left_of_bounds(old(b)@, *old(cursor) as int);
            lemma_remove_valid(b@, *cursor as int);
        }
        remove_char(b, cursor);
    } else if c == DELETE {
        proof {
            lemma_remove_valid(b@, *cursor as int);
        }
        remove_char(b, cursor);
    }
}

/// Whether [`type_chars`] may be called: no received character would make the text panic.
pub fn can_type_chars(b: &Vec<u8>, cursor: usize, cs: &Vec<char>) -> (ok: bool)
    requires
        valid_utf8(b@),
        cursor <= b@.len(),
        b@.len() + 4 * cs@.len() <= usize::MAX,
    ensures
        ok == typing_all_ok(b@, cursor as int, cs@),
{
    let mut bb = b.clone();
    let mut cur = cursor;
    let mut i: usize = 0;
    proof {
        assert(cs@.take(0) =~= Seq::<char>::empty());
    }
    while i < cs.len()
        invariant
            0 <= i <= cs@.len(),
            (bb@, cur as int) == typed_all(b@, cursor as int, cs@.take(i as int)),
            typing_all_ok(b@, cursor as int, cs@.take(i as int)),
            valid_utf8(bb@),
            cur <= bb@.len(),
            bb@.len() <= b@.len() + 4 * i,
            b@.len() + 4 * cs@.len() <= usize::MAX,
        decreases cs@.len() - i,
    {
        let c = cs[i];
        proof {
            assert(cs@.take(i + 1).drop_last() =~= cs@.take(i as int));
        }
        let ok_here = if !is_control(c) || c == DELETE {
            at_char_boundary(&bb, cur)
        } else {
            true
        };
        if !ok_here {
            proof {
                lemma_typing_prefix(b@, cursor as int, cs@, i as int + 1);
                assert(cs@.take(cs@.len() as int) =~= cs@);
            }
            return false;
        }
        type_char(&mut bb, &mut cur, c);
        i += 1;
    }
    proof {
        assert(cs@.take(cs@.len() as int) =~= cs@);
    }
    true
}

/// Applies each received character in turn, see [`typed_all`].
pub fn type_chars(b: &mut Vec<u8>, cursor: &mut usize, cs: &Vec<char>)
    requires
        valid_utf8(old(b)@),
        *old(cursor) <= old(b)@.len(),
        typing_all_ok(old(b)@, *old(cursor) as int, cs@),
        old(b)@.len() + 4 * cs@.len() <= usize::MAX,
    ensures
        (final(b)@, *final(cursor) as int) == typed_all(old(b)@, *old(cursor) as int, cs@),
        valid_utf8(final(b)@),
        *final(cursor) <= final(b)@.len(),
{
    let mut i: usize = 0;
    proof {
        assert(cs@.take(0) =~= Seq::<char>::empty());
        assert(cs@.take(cs@.len() as int) =~= cs@);
    }
    while i < cs.len()
        invariant
            0 <= i <= cs@.len(),
            (b@, *cursor as int) == typed_all(old(b)@, *old(cursor) as int, cs@.take(i as int)),
            typing_all_ok(old(b)@, *old(cursor) as int, cs@),
            valid_utf8(b@),
            *cursor <= b@.len(),
            b@.len() <= old(b)@.len() + 4 * i,
            old(b)@.len() + 4 * cs@.len() <= usize::MAX,
        decreases cs@.len() - i,
    {
        let c = cs[i];
        proof {
            assert(cs@.take(i + 1).drop_last() =~= cs@.take(i as int));
            lemma_typing_prefix(old(b)@, *old(cursor) as int, cs@, i as int + 1);
        }
        type_char(b, cursor, c);
        i += 1;
    }
    proof {
        assert(cs@.take(cs@.len() as int) =~= cs@);
    }
}

/// A run of received characters that stays clear of panics does so on every prefix.
pub proof fn lemma_typing_prefix(b: Seq<u8>, cur: int, cs: Seq<char>, n: int)
    requires
        0 <= n <= cs.len(),
    ensures
        typing_all_ok(b, cur, cs) ==> typing_all_ok(b, cur, cs.take(n)),
        typing_all_ok(b, cur, cs.take(n)) && n > 0 ==> ({
            let (b1, c1) = typed_all(b, cur, cs.take(n - 1));
            typing_ok(b1, c1, cs[n - 1])
        }),
    decreases cs.len(),
{
    if n < cs.len() {
        assert(cs.drop_last().take(n) =~= cs.take(n));
        lemma_typing_prefix(b, cur, cs.drop_last(), n);
    } else {
        assert(cs.take(n) =~= cs);
    }
    if n > 0 {
        assert(cs.take(n).drop_last() =~= cs.take(n - 1));
    }
}

/// [`left_of`] stays within the text and lands on a boundary.
pub proof fn lemma_left_of_bounds(b: Seq<u8>, i: int)
    ensures
        0 <= left_of(b, i),
        i >= 0 ==> left_of(b, i) <= i,
        i > 0 ==> left_of(b, i) < i,
        boundary(b, left_of(b, i)),
    decreases i,
{
    if i > 0 && !boundary(b, i - 1) {
        lemma_left_of_bounds(b, i - 1);
    }
}

/// [`right_of`] moves forward, stays within the text, and lands on a boundary.
pub proof fn lemma_right_of_bounds(b: Seq<u8>, i: int)
    requires
        0 <= i <= b.len(),
    ensures
        i <= right_of(b, i) <= b.len(),
        i < b.len() ==> i < right_of(b, i),
        boundary(b, right_of(b, i)),
        forall|k: int| i < k < right_of(b, i) ==> !boundary(b, k),
    decreases b.len() - i,
{
    if i < b.len() && !boundary(b, i + 1) {
        lemma_right_of_bounds(b, i + 1);
    }
}

/// Inserting a character at a boundary keeps the text valid UTF-8, and the cursor behind
/// it is a boundary.
pub proof fn lemma_insert_valid(b: Seq<u8>, i: int, c: char)
    requires
        valid_utf8(b),
        0 <= i <= b.len(),
        boundary(b, i),
    ensures
        valid_utf8(inserted(b, i, c)),
        boundary(inserted(b, i, c), i + encode_scalar(c as u32).len()),
        inserted(b, i, c).len() == b.len() + encode_scalar(c as u32).len(),
{
    lemma_boundary_is_char_boundary(b, i);
    valid_utf8_split(b, i);
    let enc = encode_scalar(c as u32);
    assert(encode_utf8(seq![c]) =~= enc) by {
        assert(seq![c].drop_first() =~= Seq::<char>::empty());
        assert(encode_utf8(Seq::<char>::empty()) =~= Seq::<u8>::empty());
        assert(seq![c][0] == c);
    }
    encode_utf8_valid_utf8(seq![c]);
    let pre = b.subrange(0, i);
    let post = b.subrange(i, b.len() as int);
    valid_utf8_concat(pre, enc);
    valid_utf8_concat(pre + enc, post);
    let nb = inserted(b, i, c);
    assert(nb == pre + enc + post);
    if i < b.len() {
        is_char_boundary_iff_not_is_continuation_byte(b, i);
        assert(nb[i + enc.len()] == b[i]);
    }
}

/// Removing the character at a boundary keeps the text valid UTF-8.
pub proof fn lemma_remove_valid(b: Seq<u8>, i: int)
    requires
        valid_utf8(b),
        0 <= i <= b.len(),
        boundary(b, i),
    ensures
        valid_utf8(removed(b, i)),
        boundary(removed(b, i), i),
        i < b.len() ==> 1 <= width_at(b, i) && i + width_at(b, i) <= b.len(),
        removed(b, i).len() <= b.len(),
{
    if i < b.len() {
        lemma_boundary_is_char_boundary(b, i);
        valid_utf8_split(b, i);
        let pre = b.subrange(0, i);
        let post = b.subrange(i, b.len() as int);
        assert(post.len() > 0);
        assert(valid_first_scalar(post));
        let rest = pop_first_scalar(post);
        assert(valid_utf8(rest));
        valid_utf8_concat(pre, rest);
        let w = width_at(b, i);
        assert(rest =~= b.subrange(i + w, b.len() as int));
        let nb = removed(b, i);
        assert(nb =~= pre + rest);
        if i < nb.len() {
            is_char_boundary_start_end_of_seq(rest);
            if rest.len() > 0 {
                is_char_boundary_iff_not_is_continuation_byte(rest, 0);
                assert(nb[i] == rest[0]);
            }
        }
    }
}

} // verus!

verus! {

/// Moving left from `j` lands on the last boundary before it.
pub proof fn lemma_left_of_skips(b: Seq<u8>, i: int, j: int)
    requires
        0 <= i < j,
        boundary(b, i),
        forall|k: int| i < k < j ==> !boundary(b, k),
    ensures
        left_of(b, j) == i,
    decreases j - i,
{
    if !boundary(b, j - 1) {
        lemma_left_of_skips(b, i, j - 1);
    }
}

/// Inside the encoding of one character only its first byte starts a character.
proof fn lemma_encoding_inner_bytes(c: char)
    ensures
        encode_scalar(c as u32).len() >= 1,
        length_of_first_scalar(encode_scalar(c as u32)) == encode_scalar(c as u32).len(),
        !is_continuation_byte(encode_scalar(c as u32)[0]),
        forall|m: int|
            0 < m < encode_scalar(c as u32).len() ==> is_continuation_byte(
                #[trigger] encode_scalar(c as u32)[m],
            ),
{
    let enc = encode_scalar(c as u32);
    assert(encode_utf8(seq![c]) =~= enc) by {
        assert(seq![c].drop_first() =~= Seq::<char>::empty());
        assert(encode_utf8(Seq::<char>::empty()) =~= Seq::<u8>::empty());
        assert(seq![c][0] == c);
    }
    encode_utf8_valid_utf8(seq![c]);
    encode_utf8_first_scalar(seq![c]);
    char_is_scalar(c);
    is_char_boundary_iff_not_is_continuation_byte(enc, 0);
    assert forall|m: int| 0 < m < enc.len() implies is_continuation_byte(#[trigger] enc[m]) by {
        is_char_boundary_iff_not_is_continuation_byte(enc, m);
        assert(!is_char_boundary(enc, m)) by {
            reveal_with_fuel(is_char_boundary, 2);
        }
    }
}

/// Inserting any character at a boundary, then moving one character left and removing the
/// character there, gives back the text and the cursor.
pub proof fn law_remove_undoes_insert(b: Seq<u8>, i: int, c: char)
    requires
        valid_utf8(b),
        0 <= i <= b.len(),
        boundary(b, i),
    ensures
        left_of(inserted(b, i, c), i + encode_scalar(c as u32).len()) == i,
        removed(inserted(b, i, c), i) == b,
{
    let enc = encode_scalar(c as u32);
    let w = enc.len() as int;
    let nb = inserted(b, i, c);
    let pre = b.subrange(0, i);
    let post = b.subrange(i, b.len() as int);
    lemma_encoding_inner_bytes(c);
    assert(nb == pre + enc + post);
    assert(boundary(nb, i)) by {
        if i > 0 && i < nb.len() {
            assert(nb[i] == enc[0]);
        }
    }
    assert forall|k: int| i < k < i + w implies !boundary(nb, k) by {
        assert(nb[k] == enc[k - i]);
    }
    lemma_left_of_skips(nb, i, i + w);
    let tail = nb.subrange(i, nb.len() as int);
    assert(tail =~= enc + post);
    assert(tail[0] == enc[0]);
    assert(width_at(nb, i) == w);
    assert(removed(nb, i) =~= b);
}

/// Typing a printable character and then backspace gives back the text and the cursor.
pub proof fn law_backspace_undoes_typing(b: Seq<u8>, i: int, c: char)
    requires
        valid_utf8(b),
        0 <= i <= b.len(),
        boundary(b, i),
        !control(c),
    ensures
        ({
            let (b1, i1) = typed(b, i, c);
            typed(b1, i1, BACKSPACE) == (b, i)
        }),
{
    law_remove_undoes_insert(b, i, c);
    assert(control(BACKSPACE));
}

/// Moving right and then left from a boundary inside the text comes back to it.
pub proof fn law_right_then_left(b: Seq<u8>, i: int)
    requires
        0 <= i < b.len(),
        boundary(b, i),
    ensures
        left_of(b, right_of(b, i)) == i,
{
    lemma_right_of_bounds(b, i);
    lemma_left_of_skips(b, i, right_of(b, i));
}

/// What a text box does in one frame: the arrow keys move the cursor, then the received
/// characters are typed at it. Returns the new cursor.
pub fn textbox_update(
    b: &mut Vec<u8>,
    cursor: usize,
    keys: ArrowKeys,
    repeat_due: bool,
    received: &Vec<char>,
) -> (new_cursor: usize)
    requires
        valid_utf8(old(b)@),
        typing_all_ok(old(b)@, after_arrows(old(b)@, cursor as int, keys, repeat_due), received@),
        old(b)@.len() + 4 * received@.len() <= usize::MAX,
    ensures
        (final(b)@, new_cursor as int) == typed_all(
            old(b)@,
            after_arrows(old(b)@, cursor as int, keys, repeat_due),
            received@,
        ),
        valid_utf8(final(b)@),
        new_cursor <= final(b)@.len(),
{
    let mut cur = apply_arrows(b, cursor, keys, repeat_due);
    type_chars(b, &mut cur, received);
    cur
}

} // verus!
