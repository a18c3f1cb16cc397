//! The command line of the launcher.

use vstd::prelude::*;

verus! {

/// Smart window launcher/switcher for Hyprland.
#[derive(Debug, Clone)]
pub struct Args {
    /// force launch a new instance
    pub new: bool,
    /// save current session
    pub save: bool,
    /// load saved session
    pub load: bool,
    /// command to run (and arguments)
    pub command: Vec<String>,
}

/// Words joined with single spaces.
pub open spec fn join_words(words: Seq<Seq<char>>) -> Seq<char>
    decreases words.len(),
{
    if words.len() == 0 {
        Seq::empty()
    } else if words.len() == 1 {
        words[0]
    } else {
        join_words(words.drop_last()) + seq![' '] + words.last()
    }
}

/// Joining adds one more word at the end, after a single space; one word is
/// itself, and no words give the empty line.
pub proof fn law_join_words_push(words: Seq<Seq<char>>, w: Seq<char>)
    ensures
        words.len() > 0 ==> join_words(words.push(w)) == join_words(words) + seq![' '] + w,
        join_words(seq![w]) == w,
        join_words(Seq::<Seq<char>>::empty()) == Seq::<char>::empty(),
{
    assert(words.push(w).drop_last() =~= words);
    assert(seq![w][0] == w);
}

/// Total length of some words.
pub open spec fn total_len(words: Seq<Seq<char>>) -> nat
    decreases words.len(),
{
    if words.len() == 0 {
        0
    } else {
        total_len(words.drop_last()) + words.last().len()
    }
}

proof fn lemma_total_len_take(words: Seq<Seq<char>>, k: int)
    requires
        0 <= k <= words.len(),
    ensures
        total_len(words.take(k)) <= total_len(words),
        k < words.len() ==> total_len(words.take(k + 1)) == total_len(words.take(k))
            + words[k].len(),
    decreases words.len(),
{
    if k < words.len() {
        assert(words.take(k + 1).drop_last() =~= words.take(k));
        lemma_total_len_take(words.drop_last(), k);
        assert(words.drop_last().take(k) =~= words.take(k));
    } else {
        assert(words.take(k) =~= words);
    }
}

/// The joined line has every word and one space between each pair: its
/// length is the words' total length plus one less than their number, and
/// the `i`-th word starts right after the `i` words before it and their
/// `i` spaces.
pub proof fn law_join_words_layout(words: Seq<Seq<char>>, i: int)
    requires
        0 <= i < words.len(),
    ensures
        join_words(words).len() == total_len(words) + words.len() - 1,
        join_words(words).subrange(
            total_len(words.take(i)) + i,
            total_len(words.take(i)) + i + words[i].len(),
        ) == words[i],
        i > 0 ==> join_words(words)[total_len(words.take(i)) + i - 1] == ' ',
    decreases words.len(),
{
    let n = words.len();
    let t = words.drop_last();
    let j = join_words(words);
    assert(words.take(n as int) =~= words);
    if n == 1 {
        assert(words.take(0) =~= Seq::<Seq<char>>::empty());
        assert(t =~= Seq::<Seq<char>>::empty());
        assert(j.subrange(0, words[0].len() as int) =~= words[0]);
    } else {
        let jt = join_words(t);
        assert(j == jt + seq![' '] + words.last());
        if i < n - 1 {
            law_join_words_layout(t, i);
            assert(t.take(i) =~= words.take(i));
            law_join_words_layout(t, 0);
            assert(t[i] == words[i]);
            lemma_total_len_take(t, i);
            lemma_total_len_take(t, i + 1);
            let a = total_len(words.take(i)) + i;
            assert(j.subrange(a, a + words[i].len()) =~= jt.subrange(a, a + words[i].len()));
            if i > 0 {
                assert(j[a - 1] == jt[a - 1]);
            }
        } else {
            law_join_words_layout(t, 0);
            assert(words.take(i) =~= t);
            assert(words.take(i).drop_last() =~= t.drop_last());
            let a = total_len(t) + i;
            assert(j.subrange(a, a + words[i].len()) =~= words.last());
            assert(j[a - 1] == ' ');
        }
    }
}

impl Args {
    /// The command to run or raise, its words joined by spaces; `None` when
    /// no command was given.
    pub fn command_line(&self) -> (r: Option<String>)
        ensures
            match r {
                Some(s) => self.command@.len() > 0 && s@ == join_words(
                    self.command@.map_values(|w: String| w@),
                ),
                None => self.command@.len() == 0,
            },
    {
        if self.command.len() == 0 {
            return None;
        }
        let ghost words = self.command@.map_values(|w: String| w@);
        let mut line = self.command[0].clone();
        assert(words.take(1) =~= seq![words[0]]);
        let mut i: usize = 1;
        while i < self.command.len()
            invariant
                words == self.command@.map_values(|w: String| w@),
                1 <= i <= self.command.len(),
                line@ == join_words(words.take(i as int)),
            decreases self.command.len() - i,
        {
            line.append(" ");
            line.append(self.command[i].as_str());
            assert(words.take(i + 1).drop_last() =~= words.take(i as int));
            assert(words.take(i + 1).last() == self.command@[i as int]@);
            assert(line@ =~= join_words(words.take(i as int)) + seq![' '] + self.command@[i as int]@) by {
                reveal_strlit(" ");
            }
            i += 1;
        }
        assert(words.take(self.command.len() as int) =~= words);
        Some(line)
    }
}

} // verus!
