//! The interactive search interface's state machine: search text, ranked
//! matches and selection index, driven by key events.
//!
//! The interface owns no terminal. A driver performs the reads and writes
//! and feeds events in; every decision, including the order of terminal
//! restoration before a failure is reported, comes out of this state
//! machine as a value.

use vstd::prelude::*;
use crate::choice;
use crate::choice::{
    choice_wf,
    choices_sorted,
    filtered_texts,
    lemma_incremental_filter,
    strs_of,
    texts_of,
    Choice,
};
use crate::ansi::{csi_seq, csi_start};
use crate::event::{Event, Key};
use crate::text::{dec_len, dec_spec, push_dec, string_from_chars};

verus! {

/// What the interface starts from: the candidate lines and an initial
/// search string.
pub struct Options {
    pub choices: Vec<String>,
    pub initial: String,
}

/// How an interactive session ends.
#[derive(Debug)]
pub enum Conclusion {
    /// The user accepted this text.
    Accept(String),
    /// The user cancelled the session.
    Cancel,
    /// A write to the terminal failed.
    WriteFailed,
}

/// What the driver must do after handing the interface an event: redraw,
/// do nothing, or restore the terminal first and then act on the
/// conclusion.
#[derive(Debug)]
pub enum SessionStep {
    Render,
    Idle,
    Finish(Conclusion),
}

/// At most ten matches are shown and selectable.
pub open spec fn limit_of(len: int) -> int {
    if len > 10 {
        10
    } else {
        len
    }
}

/// The selection index clamped into the selectable range.
pub open spec fn clamped(sel: int, len: int) -> int {
    let lim = limit_of(len);
    if sel < lim {
        sel
    } else if lim > 0 {
        lim - 1
    } else {
        0
    }
}

/// The line break that precedes each rendered match row.
pub open spec fn crlf() -> Seq<char> {
    seq!['\r', '\n']
}

/// The escape that turns inverted video on.
pub open spec fn invert_on() -> Seq<char> {
    csi_seq(seq!['7', 'm'])
}

/// The escape that turns inverted video off.
pub open spec fn invert_off() -> Seq<char> {
    csi_seq(seq!['2', '7', 'm'])
}

/// The escape that paints matched characters magenta.
pub open spec fn fg_highlight() -> Seq<char> {
    csi_seq(seq!['3', '8', ';', '5', ';', '5', 'm'])
}

/// The escape that restores the default foreground color.
pub open spec fn fg_default() -> Seq<char> {
    csi_seq(seq!['3', '9', 'm'])
}

/// One rendered character of a match row: highlighted when its position
/// was matched by the query.
pub open spec fn piece(t: Seq<char>, pos: Seq<usize>, i: int) -> Seq<char> {
    if pos.contains(i as usize) {
        fg_highlight() + seq![t[i]] + fg_default()
    } else {
        seq![t[i]]
    }
}

/// The first `upto` characters of a match row, each possibly highlighted.
pub open spec fn colored_prefix(t: Seq<char>, pos: Seq<usize>, upto: int) -> Seq<char>
    decreases upto,
{
    if upto <= 0 {
        Seq::<char>::empty()
    } else {
        colored_prefix(t, pos, upto - 1) + piece(t, pos, upto - 1)
    }
}

/// One rendered match row, truncated to the terminal width and shown in
/// inverted video when selected.
pub open spec fn row_spec(c: Choice, sel: bool, width: int) -> Seq<char> {
    let limit = if c.text@.len() < width {
        c.text@.len() as int
    } else {
        width
    };
    let pos = match c.score.positions {
        Some(p) => p@,
        None => Seq::<usize>::empty(),
    };
    crlf() + (if sel {
        invert_on()
    } else {
        Seq::<char>::empty()
    }) + colored_prefix(c.text@, pos, limit) + (if sel {
        invert_off()
    } else {
        Seq::<char>::empty()
    })
}

/// The first `upto` rendered match rows.
pub open spec fn rows_spec(ms: Seq<Choice>, sel: int, width: int, upto: int) -> Seq<char>
    decreases upto,
{
    if upto <= 0 {
        Seq::<char>::empty()
    } else {
        rows_spec(ms, sel, width, upto - 1) + row_spec(ms[upto - 1], sel == upto - 1, width)
    }
}

/// A run of spaces.
pub open spec fn spaces(n: int) -> Seq<char> {
    Seq::new(
        if n < 0 {
            0
        } else {
            n as nat
        },
        |k: int| ' ',
    )
}

/// The prompt line: the match count right-aligned in the reserved width,
/// a separator, and the search text.
pub open spec fn prompt_spec(count: int, cw: int, search: Seq<char>) -> Seq<char> {
    spaces(cw - dec_len(count)) + dec_spec(count) + seq![' ', '>', ' '] + search
}

/// The column just after a prompt of the given length, held within the
/// machine's address range.
pub open spec fn col_after(n: int) -> int {
    if n + 1 <= usize::MAX as int {
        n + 1
    } else {
        n
    }
}

/// Appends the characters of `tail` to `out`.
fn append_chars(out: &mut Vec<char>, tail: &Vec<char>)
    ensures
        final (out)@ == old(out)@ + tail@,
{
    let mut k: usize = 0;
    while k < tail.len()
        invariant
            k <= tail@.len(),
            out@ == old(out)@ + tail@.take(k as int),
        decreases tail@.len() - k,
    {
        out.push(tail[k]);
        proof {
            assert(out@ =~= old(out)@ + tail@.take(k + 1));
        }
        k += 1;
    }
    proof {
        assert(old(out)@ + tail@.take(tail@.len() as int) =~= old(out)@ + tail@);
    }
}

/// Whether `v` holds `x`.
fn vec_contains_usize(v: &Vec<usize>, x: usize) -> (r: bool)
    ensures
        r == v@.contains(x),
{
    let mut k: usize = 0;
    while k < v.len()
        invariant
            k <= v@.len(),
            forall|t: int| 0 <= t < k ==> v@[t] != x,
        decreases v@.len() - k,
    {
        if v[k] == x {
            return true;
        }
        k += 1;
    }
    false
}

/// The interactive state machine.
pub struct Interface {
    choices: Vec<String>,
    matches: Vec<Choice>,
    search: Vec<char>,
    selected: usize,
    choices_width: usize,
    width: usize,
}

impl Interface {
    /// The candidate lines.
    pub closed spec fn spec_choices(&self) -> Seq<String> {
        self.choices@
    }

    /// The current ranked matches.
    pub closed spec fn spec_matches(&self) -> Seq<Choice> {
        self.matches@
    }

    /// The current search text.
    pub closed spec fn spec_search(&self) -> Seq<char> {
        self.search@
    }

    /// The current selection index.
    pub closed spec fn spec_selected(&self) -> int {
        self.selected as int
    }

    /// The terminal width the interface renders into.
    pub closed spec fn spec_width(&self) -> int {
        self.width as int
    }

    /// The column width reserved for the match count in the prompt.
    pub closed spec fn spec_choices_width(&self) -> int {
        self.choices_width as int
    }

    /// The interface invariant: the match list is exactly the ranking of
    /// the current search text over the candidate set (same texts, same
    /// multiplicities, in descending score order, each with its score and
    /// positions), and the selection is clamped.
    pub open spec fn wf(&self) -> bool {
        &&& choices_sorted(self.spec_matches())
        &&& forall|k: int|
            0 <= k < self.spec_matches().len() ==> choice_wf(
                self.spec_search(),
                #[trigger] self.spec_matches()[k],
            )
        &&& texts_of(self.spec_matches()).to_multiset() == filtered_texts(
            self.spec_search(),
            strs_of(self.spec_choices()),
        ).to_multiset()
        &&& self.spec_selected() == clamped(self.spec_selected(), self.spec_matches().len() as int)
        &&& self.spec_choices_width() == dec_len(self.spec_choices().len() as int)
    }

    /// The text a session concluding now would accept: the selected match,
    /// or the raw search text when nothing matches.
    pub open spec fn result_spec(&self) -> Seq<char> {
        if self.spec_selected() < self.spec_matches().len() {
            self.spec_matches()[self.spec_selected()].text@
        } else {
            self.spec_search()
        }
    }

    /// Creates an interface over the given candidates, with a fresh
    /// ranking for the initial search text.
    pub fn from_opts(opts: Options, width: usize) -> (r: Interface)
        ensures
            r.wf(),
            r.spec_choices() == opts.choices@,
            r.spec_search() == opts.initial@,
            r.spec_width() == width as int,
    {
        let mut digits: Vec<char> = Vec::new();
        push_dec(&mut digits, opts.choices.len());
        let choices_width = digits.len();
        let search = crate::matcher::chars_of(opts.initial.as_str());
        let matches = choice::rank(opts.initial.as_str(), &opts.choices);
        let mut r = Interface {
            choices: opts.choices,
            matches,
            search,
            selected: 0,
            choices_width,
            width,
        };
        r.clamp_selected();
        r
    }

    /// Clamps the selection into the selectable range.
    fn clamp_selected(&mut self)
        ensures
            final (self).choices@ == old(self).choices@,
            final (self).matches@ == old(self).matches@,
            final (self).search@ == old(self).search@,
            final (self).choices_width == old(self).choices_width,
            final (self).width == old(self).width,
            final (self).selected as int == clamped(
                old(self).selected as int,
                old(self).matches@.len() as int,
            ),
    {
        let mut max = self.matches.len();
        if max > 10 {
            max = 10;
        }
        if self.selected >= max {
            self.selected = if max > 0 {
                max - 1
            } else {
                0
            };
        }
    }

    /// The current search text as a string.
    pub fn search_text(&self) -> (r: String)
        ensures
            r@ == self.spec_search(),
    {
        string_from_chars(&self.search)
    }

    /// The number of current matches.
    pub fn match_count(&self) -> (r: usize)
        ensures
            r as int == self.spec_matches().len(),
    {
        self.matches.len()
    }

    /// Re-ranks the full candidate set against the current search text.
    fn filter_matches(&mut self)
        requires
            old(self).choices_width as int == dec_len(old(self).choices@.len() as int),
        ensures
            final (self).choices@ == old(self).choices@,
            final (self).search@ == old(self).search@,
            final (self).choices_width == old(self).choices_width,
            final (self).width == old(self).width,
            final (self).wf(),
    {
        let query = string_from_chars(&self.search);
        let ranked = choice::rank(query.as_str(), &self.choices);
        self.matches = ranked;
        self.clamp_selected();
    }

    /// Re-ranks only the previous result set, valid when the search text
    /// was narrowed by appending a character: appending can only remove
    /// matches, never admit new ones.
    fn filter_existing(&mut self, ghost_prev: Ghost<Seq<char>>, appended: Ghost<char>)
        requires
            old(self).choices_width as int == dec_len(old(self).choices@.len() as int),
            old(self).search@ == ghost_prev@.push(appended@),
            texts_of(old(self).matches@).to_multiset() == filtered_texts(
                ghost_prev@,
                strs_of(old(self).choices@),
            ).to_multiset(),
        ensures
            final (self).choices@ == old(self).choices@,
            final (self).search@ == old(self).search@,
            final (self).choices_width == old(self).choices_width,
            final (self).width == old(self).width,
            final (self).wf(),
            final (self).matches@.len() <= old(self).matches@.len(),
    {
        let query = string_from_chars(&self.search);
        let mut prior_texts: Vec<String> = Vec::new();
        let mut k: usize = 0;
        while k < self.matches.len()
            invariant
                k <= self.matches@.len(),
                prior_texts@.len() == k,
                forall|t: int| 0 <= t < k ==> #[trigger] prior_texts@[t]@ == self.matches@[t].text@,
            decreases self.matches@.len() - k,
        {
            let text = self.matches[k].text.clone();
            prior_texts.push(text);
            k += 1;
        }
        proof {
            assert(strs_of(prior_texts@) =~= texts_of(self.matches@));
        }
        let ranked = choice::rank(query.as_str(), &prior_texts);
        self.matches = ranked;
        self.clamp_selected();
        proof {
            broadcast use vstd::seq_lib::group_to_multiset_ensures;

            lemma_incremental_filter(
                ghost_prev@,
                appended@,
                strs_of(prior_texts@),
                strs_of(self.choices@),
            );
            crate::choice::lemma_filtered_len(old(self).search@, strs_of(prior_texts@));
            let fresh = texts_of(self.matches@);
            let narrowed = filtered_texts(old(self).search@, strs_of(prior_texts@));
            assert(fresh.to_multiset().len() == narrowed.to_multiset().len());
            assert(fresh.len() == fresh.to_multiset().len());
            assert(narrowed.len() == narrowed.to_multiset().len());
            assert(strs_of(prior_texts@).len() == old(self).matches@.len());
        }
    }

    /// Reacts to one input event, as long as the session is running:
    /// mutates the state, and says what the driver must do next.
    pub fn handle_event(&mut self, ev: &Event) -> (r: SessionStep)
        requires
            old(self).wf(),
        ensures
            final (self).wf(),
            final (self).spec_choices() == old(self).spec_choices(),
            final (self).spec_width() == old(self).spec_width(),
            ({
                let cancel = (ev matches Event::Key(Key::Ctrl(c)) && (c == 'c' || c == 'd')) || *ev
                    == Event::Key(Key::Escape);
                let enter = *ev == Event::Key(Key::Char('\n'));
                let down = *ev == Event::Key(Key::Ctrl('n'));
                let up = *ev == Event::Key(Key::Ctrl('p'));
                let erase = *ev == Event::Key(Key::Backspace) || *ev == Event::Key(Key::Ctrl('h'));
                let clear = *ev == Event::Key(Key::Ctrl('u'));
                let typed = !enter && (ev matches Event::Key(Key::Char(_)));
                &&& cancel ==> (r matches SessionStep::Finish(Conclusion::Cancel)) && *final (self)
                    == *old(self)
                &&& enter ==> (r matches SessionStep::Finish(Conclusion::Accept(s)) && s@ == old(
                    self,
                ).result_spec()) && *final (self) == *old(self)
                &&& down ==> r is Render && final (self).spec_search() == old(self).spec_search()
                    && final (self).spec_matches() == old(self).spec_matches() && final (
                self).spec_selected() == clamped(
                    old(self).spec_selected() + 1,
                    old(self).spec_matches().len() as int,
                )
                &&& up ==> r is Render && final (self).spec_search() == old(self).spec_search()
                    && final (self).spec_matches() == old(self).spec_matches() && final (
                self).spec_selected() == clamped(
                    if old(self).spec_selected() > 0 {
                        old(self).spec_selected() - 1
                    } else {
                        0
                    },
                    old(self).spec_matches().len() as int,
                )
                &&& typed ==> r is Render && (ev matches Event::Key(Key::Char(ch)) && final (
                self).spec_search() == old(self).spec_search().push(*ch)) && final (
                self).spec_matches().len() <= old(self).spec_matches().len()
                &&& erase ==> r is Render && final (self).spec_search() == old(
                    self,
                ).spec_search().take(
                    if old(self).spec_search().len() > 0 {
                        old(self).spec_search().len() - 1
                    } else {
                        0
                    },
                )
                &&& clear ==> r is Render && final (self).spec_search() == Seq::<char>::empty()
                &&& !(cancel || enter || down || up || typed || erase || clear) ==> r is Idle
                    && *final (self) == *old(self)
            }),
    {
        match ev {
            Event::Key(key) => {
                match key {
                    Key::Escape => SessionStep::Finish(Conclusion::Cancel),
                    Key::Char(ch) => {
                        if *ch == '\n' {
                            let result = self.result_text();
                            SessionStep::Finish(Conclusion::Accept(result))
                        } else {
                            let ghost prev = self.search@;
                            self.search.push(*ch);
                            self.filter_existing(Ghost(prev), Ghost(*ch));
                            SessionStep::Render
                        }
                    },
                    Key::Ctrl(c) => {
                        if *c == 'c' || *c == 'd' {
                            SessionStep::Finish(Conclusion::Cancel)
                        } else if *c == 'n' {
                            self.selected = self.selected + 1;
                            self.clamp_selected();
                            SessionStep::Render
                        } else if *c == 'p' {
                            if self.selected > 0 {
                                self.selected = self.selected - 1;
                            }
                            self.clamp_selected();
                            SessionStep::Render
                        } else if *c == 'h' {
                            if self.search.len() > 0 {
                                let last = self.search.len() - 1;
                                self.search.truncate(last);
                            }
                            proof {
                                if old(self).search@.len() == 0 {
                                    assert(self.search@ =~= old(self).search@.take(0));
                                }
                            }
                            self.filter_matches();
                            SessionStep::Render
                        } else if *c == 'u' {
                            self.search = Vec::new();
                            self.filter_matches();
                            SessionStep::Render
                        } else {
                            SessionStep::Idle
                        }
                    },
                    Key::Backspace => {
                        if self.search.len() > 0 {
                            let last = self.search.len() - 1;
                            self.search.truncate(last);
                        }
                        proof {
                            if old(self).search@.len() == 0 {
                                assert(self.search@ =~= old(self).search@.take(0));
                            }
                        }
                        self.filter_matches();
                        SessionStep::Render
                    },
                    _ => SessionStep::Idle,
                }
            },
            Event::Unknown(_) => SessionStep::Idle,
        }
    }

    /// The full frame for the current state: the cursor returns to column
    /// one, the screen is cleared, the prompt and up to ten matches are
    /// drawn, and the cursor moves back up to just after the search text.
    pub open spec fn render_spec(&self) -> Seq<char> {
        let count = self.spec_matches().len() as int;
        let shown = limit_of(count);
        let prompt = prompt_spec(count, self.spec_choices_width(), self.spec_search());
        let head = csi_seq(seq!['1', 'G']) + csi_seq(seq!['J']) + prompt;
        let body = rows_spec(self.spec_matches(), self.spec_selected(), self.spec_width(), shown);
        let foot = if shown > 0 {
            csi_seq(dec_spec(shown) + seq!['A']) + csi_seq(
                dec_spec(col_after(prompt.len() as int)) + seq!['G'],
            )
        } else {
            Seq::<char>::empty()
        };
        head + body + foot
    }

    /// Renders the current state of the interface into the byte string a
    /// driver writes to the terminal.
    pub fn render_text(&self) -> (r: String)
        ensures
            r@ == self.render_spec(),
    {
        let mut out = csi_start();
        out.push('1');
        out.push('G');
        let mut clear = csi_start();
        clear.push('J');
        append_chars(&mut out, &clear);
        proof {
            assert(out@ =~= csi_seq(seq!['1', 'G']) + csi_seq(seq!['J']));
        }

        let count = self.matches.len();
        let mut digits: Vec<char> = Vec::new();
        push_dec(&mut digits, count);
        let mut prompt: Vec<char> = Vec::new();
        let pad: usize = if self.choices_width > digits.len() {
            self.choices_width - digits.len()
        } else {
            0
        };
        let mut k: usize = 0;
        while k < pad
            invariant
                k <= pad,
                prompt@ =~= spaces(k as int),
            decreases pad - k,
        {
            prompt.push(' ');
            proof {
                assert(prompt@ =~= spaces(k + 1));
            }
            k += 1;
        }
        append_chars(&mut prompt, &digits);
        prompt.push(' ');
        prompt.push('>');
        prompt.push(' ');
        append_chars(&mut prompt, &self.search);
        proof {
            assert(prompt@ =~= prompt_spec(
                count as int,
                self.spec_choices_width(),
                self.spec_search(),
            ));
        }
        append_chars(&mut out, &prompt);

        let ghost head = csi_seq(seq!['1', 'G']) + csi_seq(seq!['J']) + prompt@;
        let mut shown = self.matches.len();
        if shown > 10 {
            shown = 10;
        }
        let mut i: usize = 0;
        while i < shown
            invariant
                i <= shown,
                shown == limit_of(self.spec_matches().len() as int),
                shown <= self.spec_matches().len(),
                out@ =~= head + rows_spec(
                    self.spec_matches(),
                    self.spec_selected(),
                    self.spec_width(),
                    i as int,
                ),
            decreases shown - i,
        {
            let ghost row_head = out@;
            out.push('\r');
            out.push('\n');
            let selrow = i == self.selected;
            if selrow {
                let mut inv = csi_start();
                inv.push('7');
                inv.push('m');
                append_chars(&mut out, &inv);
            }
            let choice: &Choice = &self.matches[i];
            let text = crate::matcher::chars_of(choice.text.as_str());
            let limit: usize = if text.len() < self.width {
                text.len()
            } else {
                self.width
            };
            let ghost pos_spec = match &choice.score.positions {
                Some(p) => p@,
                None => Seq::<usize>::empty(),
            };
            let ghost mid = out@;
            let mut p: usize = 0;
            while p < limit
                invariant
                    p <= limit,
                    limit <= text@.len(),
                    text@ == self.spec_matches()[i as int].text@,
                    i < self.spec_matches().len(),
                    pos_spec == match self.spec_matches()[i as int].score.positions {
                        Some(q) => q@,
                        None => Seq::<usize>::empty(),
                    },
                    out@ =~= mid + colored_prefix(text@, pos_spec, p as int),
                decreases limit - p,
            {
                let hit = match &self.matches[i].score.positions {
                    Some(q) => vec_contains_usize(q, p),
                    None => false,
                };
                if hit {
                    let mut fg = csi_start();
                    fg.push('3');
                    fg.push('8');
                    fg.push(';');
                    fg.push('5');
                    fg.push(';');
                    fg.push('5');
                    fg.push('m');
                    append_chars(&mut out, &fg);
                    out.push(text[p]);
                    let mut reset = csi_start();
                    reset.push('3');
                    reset.push('9');
                    reset.push('m');
                    append_chars(&mut out, &reset);
                } else {
                    out.push(text[p]);
                }
                proof {
                    assert(out@ =~= mid + colored_prefix(text@, pos_spec, p + 1));
                }
                p += 1;
            }
            if selrow {
                let mut noinv = csi_start();
                noinv.push('2');
                noinv.push('7');
                noinv.push('m');
                append_chars(&mut out, &noinv);
            }
            proof {
                assert(out@ =~= row_head + row_spec(
                    self.spec_matches()[i as int],
                    self.spec_selected() == i as int,
                    self.spec_width(),
                ));
                assert(out@ =~= head + rows_spec(
                    self.spec_matches(),
                    self.spec_selected(),
                    self.spec_width(),
                    i + 1,
                ));
            }
            i += 1;
        }

        if shown > 0 {
            let mut up = csi_start();
            push_dec(&mut up, shown);
            up.push('A');
            append_chars(&mut out, &up);
            let col = prompt.len().saturating_add(1);
            let mut colseq = csi_start();
            push_dec(&mut colseq, col);
            colseq.push('G');
            append_chars(&mut out, &colseq);
        }
        proof {
            assert(out@ =~= self.render_spec());
        }
        string_from_chars(&out)
    }

    /// A write to the terminal failed mid-render: the driver must restore
    /// the terminal first, and only then report the failure.
    pub fn on_write_error(&self) -> (r: SessionStep)
        ensures
            r matches SessionStep::Finish(Conclusion::WriteFailed),
    {
        SessionStep::Finish(Conclusion::WriteFailed)
    }

    /// The text a session concluding now would accept.
    pub fn result_text(&self) -> (r: String)
        ensures
            r@ == self.result_spec(),
    {
        if self.selected < self.matches.len() {
            let choice: &Choice = &self.matches[self.selected];
            choice.text.clone()
        } else {
            string_from_chars(&self.search)
        }
    }
}

} // verus!
