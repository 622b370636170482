//! Cyclic rotation of a word sequence, and the iterator that emits each
//! rotation joined into a single string.

use vstd::prelude::*;

verus! {

/// Direction of a cyclic shift: `Left` moves the first word to the end,
/// `Right` moves the last word to the front.
pub enum Direction {
    Left,
    Right,
}

/// One rotation to the left: the first word moves to the end.
pub open spec fn rotate_left1(ws: Seq<Seq<char>>) -> Seq<Seq<char>> {
    if ws.len() == 0 {
        ws
    } else {
        ws.drop_first().push(ws[0])
    }
}

/// One rotation to the right: the last word moves to the front.
pub open spec fn rotate_right1(ws: Seq<Seq<char>>) -> Seq<Seq<char>> {
    if ws.len() == 0 {
        ws
    } else {
        seq![ws.last()] + ws.drop_last()
    }
}

/// `k` successive rotations of `ws` in direction `dir`.
pub open spec fn rotated(ws: Seq<Seq<char>>, dir: Direction, k: nat) -> Seq<Seq<char>>
    decreases k,
{
    if k == 0 {
        ws
    } else {
        match dir {
            Direction::Left => rotate_left1(rotated(ws, dir, (k - 1) as nat)),
            Direction::Right => rotate_right1(rotated(ws, dir, (k - 1) as nat)),
        }
    }
}

/// The words of `ws` joined by single spaces.
pub open spec fn join_words(ws: Seq<Seq<char>>) -> Seq<char>
    decreases ws.len(),
{
    if ws.len() == 0 {
        Seq::empty()
    } else if ws.len() == 1 {
        ws[0]
    } else {
        ws[0] + seq![' '] + join_words(ws.drop_first())
    }
}

/// Appending a word extends the joined string by a space and the word.
pub proof fn lemma_join_push(ws: Seq<Seq<char>>, w: Seq<char>)
    ensures
        ws.len() == 0 ==> join_words(ws.push(w)) == w,
        ws.len() > 0 ==> join_words(ws.push(w)) == join_words(ws) + seq![' '] + w,
    decreases ws.len(),
{
    if ws.len() == 0 {
        assert(ws.push(w)[0] == w);
    } else {
        lemma_join_push(ws.drop_first(), w);
        assert(ws.push(w).drop_first() =~= ws.drop_first().push(w));
        assert(ws.push(w)[0] == ws[0]);
        if ws.len() == 1 {
            assert(join_words(ws.push(w)) =~= join_words(ws) + seq![' '] + w);
        } else {
            assert(ws[0] + seq![' '] + (join_words(ws.drop_first()) + seq![' '] + w) =~= (ws[0]
                + seq![' '] + join_words(ws.drop_first())) + seq![' '] + w);
        }
    }
}

/// The sequence of strings that `n` rotations of `ws` in direction `dir`
/// emit: the `i`-th entry is the words after `i + 1` rotation steps, joined by
/// single spaces.  Rotation happens before the first emission, so the original
/// order is never the first entry.
pub open spec fn shift_seq(ws: Seq<Seq<char>>, dir: Direction, n: nat) -> Seq<Seq<char>> {
    Seq::new(n, |i: int| join_words(rotated(ws, dir, (i + 1) as nat)))
}

/// After `k <= n` left rotations the words read: the last `n - k` original
/// words, then the first `k`.
pub proof fn lemma_rot_left_k(ws: Seq<Seq<char>>, k: nat)
    requires
        k <= ws.len(),
    ensures
        rotated(ws, Direction::Left, k) =~= ws.skip(k as int) + ws.take(k as int),
    decreases k,
{
    if k == 0 {
        assert(ws.skip(0) + ws.take(0) =~= ws);
    } else {
        lemma_rot_left_k(ws, (k - 1) as nat);
        let prev = rotated(ws, Direction::Left, (k - 1) as nat);
        assert(prev =~= ws.skip(k - 1) + ws.take(k - 1));
        assert(prev[0] == ws[k - 1]);
        assert(rotate_left1(prev) =~= ws.skip(k as int) + ws.take(k as int));
    }
}

/// After `k <= n` right rotations the words read: the last `k` original
/// words, then the first `n - k`.
pub proof fn lemma_rot_right_k(ws: Seq<Seq<char>>, k: nat)
    requires
        k <= ws.len(),
    ensures
        rotated(ws, Direction::Right, k) =~= ws.skip(ws.len() - k) + ws.take(ws.len() - k),
    decreases k,
{
    if k == 0 {
        assert(ws.skip(ws.len() as int) + ws.take(ws.len() as int) =~= ws);
    } else {
        lemma_rot_right_k(ws, (k - 1) as nat);
        let n = ws.len() as int;
        let prev = rotated(ws, Direction::Right, (k - 1) as nat);
        assert(prev =~= ws.skip(n - (k - 1)) + ws.take(n - (k - 1)));
        assert(prev.last() == ws[n - k]);
        assert(rotate_right1(prev) =~= ws.skip(n - k) + ws.take(n - k));
    }
}

/// Full-length rotation is a complete cyclic traversal: the full sequence of
/// emissions has one entry per word, rotating by the word count restores the
/// original order, and one further step reproduces the first emission.
pub proof fn lemma_full_cycle(ws: Seq<Seq<char>>)
    ensures
        shift_seq(ws, Direction::Left, ws.len()).len() == ws.len(),
        rotated(ws, Direction::Left, ws.len()) == ws,
        ws.len() > 0 ==> rotated(ws, Direction::Left, ws.len() + 1) == rotated(
            ws,
            Direction::Left,
            1,
        ),
{
    lemma_rot_left_k(ws, ws.len());
    assert(ws.skip(ws.len() as int) + ws.take(ws.len() as int) =~= ws);
    assert(rotated(ws, Direction::Left, ws.len()) == ws);
    if ws.len() > 0 {
        assert(rotated(ws, Direction::Left, ws.len() + 1) == rotate_left1(
            rotated(ws, Direction::Left, ws.len()),
        ));
        assert(rotated(ws, Direction::Left, 1) == rotate_left1(rotated(ws, Direction::Left, 0)));
    }
}

/// Left-direction and right-direction full-length rotation produce the same
/// set of emitted strings; only the order of emission differs.
pub proof fn lemma_left_right_same_set(ws: Seq<Seq<char>>)
    ensures
        shift_seq(ws, Direction::Left, ws.len()).to_set() == shift_seq(
            ws,
            Direction::Right,
            ws.len(),
        ).to_set(),
{
    let n = ws.len() as int;
    let ls = shift_seq(ws, Direction::Left, ws.len());
    let rs = shift_seq(ws, Direction::Right, ws.len());
    assert forall|x: Seq<char>| ls.to_set().contains(x) implies rs.to_set().contains(x) by {
        let i = choose|i: int| 0 <= i < n && ls[i] == x;
        let j = if i + 1 == n {
            n - 1
        } else {
            n - 2 - i
        };
        lemma_rot_left_k(ws, (i + 1) as nat);
        lemma_rot_right_k(ws, (j + 1) as nat);
        assert(rotated(ws, Direction::Right, (j + 1) as nat) =~= rotated(
            ws,
            Direction::Left,
            (i + 1) as nat,
        ));
        assert(rs[j] == x);
        assert(rs.contains(x));
    }
    assert forall|x: Seq<char>| rs.to_set().contains(x) implies ls.to_set().contains(x) by {
        let j = choose|j: int| 0 <= j < n && rs[j] == x;
        let i = if j + 1 == n {
            n - 1
        } else {
            n - 2 - j
        };
        lemma_rot_left_k(ws, (i + 1) as nat);
        lemma_rot_right_k(ws, (j + 1) as nat);
        assert(rotated(ws, Direction::Left, (i + 1) as nat) =~= rotated(
            ws,
            Direction::Right,
            (j + 1) as nat,
        ));
        assert(ls[i] == x);
        assert(ls.contains(x));
    }
    assert(ls.to_set() =~= rs.to_set());
}

/// The views of a sequence of borrowed strings.
pub open spec fn str_views(ss: Seq<&str>) -> Seq<Seq<char>> {
    ss.map_values(|s: &str| s@)
}

/// Joins the strings of `queue` with single spaces.
fn join_queue(queue: &Vec<&str>) -> (r: String)
    ensures
        r@ == join_words(str_views(queue@)),
{
    let mut out = String::new();
    let n = queue.len();
    if n == 0 {
        return out;
    }
    out.append(queue[0]);
    proof {
        assert(str_views(queue@).take(1) =~= seq![queue@[0]@]);
        assert(join_words(str_views(queue@).take(1)) == queue@[0]@);
    }
    let mut i: usize = 1;
    while i < n
        invariant
            1 <= i <= n,
            n == queue@.len(),
            out@ == join_words(str_views(queue@).take(i as int)),
        decreases n - i,
    {
        proof {
            reveal_strlit(" ");
        }
        out.append(" ");
        out.append(queue[i]);
        proof {
            let vs = str_views(queue@);
            lemma_join_push(vs.take(i as int), vs[i as int]);
            assert(vs.take(i as int).push(vs[i as int]) =~= vs.take(i as int + 1));
            assert(out@ =~= join_words(vs.take(i as int)) + seq![' '] + vs[i as int]);
        }
        i = i + 1;
    }
    proof {
        assert(str_views(queue@).take(n as int) =~= str_views(queue@));
    }
    out
}

/// An iterator over the cyclic rotations of a word sequence.  Each step
/// rotates the queue one position in the fixed direction and emits the queue
/// joined by single spaces; exactly `length` strings are emitted in all, so
/// the original order is never the first emission.  The iterator is not
/// restartable.
pub struct RapidShifterIter<'a> {
    queue: Vec<&'a str>,
    length: usize,
    direction: Direction,
}

impl<'a> RapidShifterIter<'a> {
    /// The words currently in the cyclic buffer.
    pub closed spec fn words(self) -> Seq<Seq<char>> {
        str_views(self.queue@)
    }

    /// How many emissions remain.
    pub closed spec fn remaining(self) -> nat {
        self.length as nat
    }

    /// The direction of each rotation step.
    pub closed spec fn dir(self) -> Direction {
        self.direction
    }

    /// Starts an iterator over `input`.  It will emit `length` rotations
    /// (when absent: one per word), rotating in direction `direction`.
    pub fn new(input: Vec<&'a str>, length: Option<usize>, direction: Direction) -> (r:
        RapidShifterIter<'a>)
        ensures
            r.words() == str_views(input@),
            r.remaining() == match length {
                Some(l) => l as nat,
                None => input@.len(),
            },
            r.dir() == direction,
    {
        let length = match length {
            Some(l) => l,
            None => input.len(),
        };
        RapidShifterIter { queue: input, length, direction }
    }

    /// Emits the next rotation: the queue advances one position in the
    /// iterator's direction and the result is the rotated queue joined by
    /// single spaces.  Exhausted when no emissions remain; a queue with no
    /// words is exhausted immediately.
    pub fn next(&mut self) -> (r: Option<String>)
        ensures
            ({
                if old(self).remaining() == 0 || old(self).words().len() == 0 {
                    r is None && *final(self) == *old(self)
                } else {
                    &&& final(self).words() == match old(self).dir() {
                        Direction::Left => rotate_left1(old(self).words()),
                        Direction::Right => rotate_right1(old(self).words()),
                    }
                    &&& final(self).remaining() == old(self).remaining() - 1
                    &&& final(self).dir() == old(self).dir()
                    &&& r matches Some(s) && s@ == join_words(final(self).words())
                }
            }),
    {
        if self.length == 0 || self.queue.len() == 0 {
            return None;
        }
        let ghost prev = self.queue@;
        match self.direction {
            Direction::Left => {
                let first = self.queue.remove(0);
                self.queue.push(first);
                proof {
                    assert(str_views(self.queue@) =~= rotate_left1(str_views(prev)));
                }
            },
            Direction::Right => {
                if let Some(last) = self.queue.pop() {
                    self.queue.insert(0, last);
                }
                proof {
                    assert(str_views(self.queue@) =~= rotate_right1(str_views(prev)));
                }
            },
        }
        self.length = self.length - 1;
        Some(join_queue(&self.queue))
    }
}

} // verus!
