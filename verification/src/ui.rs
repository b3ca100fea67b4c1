//! Terminal cosmetics: banner and ANSI colors. Colors are only emitted to an
//! actual terminal, and not where `NO_COLOR` is set; `color` says so in every
//! function here.

use vstd::prelude::*;

use crate::causal;

verus! {

/// Whether output is colored: `no_color` tells whether `NO_COLOR` is set,
/// `terminal` whether standard output is a terminal.
pub fn color_enabled(no_color: bool, terminal: bool) -> (color: bool)
    ensures
        color == (!no_color && terminal),
{
    !no_color && terminal
}

/// `s` between the escape sequences that switch `code` on and everything off,
/// or as it is where output is not colored.
pub open spec fn painted(color: bool, code: Seq<char>, s: Seq<char>) -> Seq<char> {
    if color {
        "\x1b["@ + code + "m"@ + s + "\x1b[0m"@
    } else {
        s
    }
}

/// Without color every text stays as it is, whatever the code.
pub proof fn law_plain_output_has_no_escapes(code: Seq<char>, s: Seq<char>)
    ensures
        painted(false, code, s) == s,
{
}

/// `s` in the color `code`.
pub fn paint(color: bool, code: &str, s: &str) -> (out: String)
    ensures
        out@ == painted(color, code@, s@),
{
    if color {
        let mut out = String::new();
        out.append("\x1b[");
        out.append(code);
        out.append("m");
        out.append(s);
        out.append("\x1b[0m");
        assert(out@ =~= painted(color, code@, s@));
        out
    } else {
        s.to_owned()
    }
}

pub fn bold(color: bool, s: &str) -> (out: String)
    ensures
        out@ == painted(color, "1"@, s@),
{
    paint(color, "1", s)
}

pub fn dim(color: bool, s: &str) -> (out: String)
    ensures
        out@ == painted(color, "2"@, s@),
{
    paint(color, "2", s)
}

pub fn bold_yellow(color: bool, s: &str) -> (out: String)
    ensures
        out@ == painted(color, "1;93"@, s@),
{
    paint(color, "1;93", s)
}

pub fn bold_red(color: bool, s: &str) -> (out: String)
    ensures
        out@ == painted(color, "1;91"@, s@),
{
    paint(color, "1;91", s)
}

pub fn magenta(color: bool, s: &str) -> (out: String)
    ensures
        out@ == painted(color, "1;95"@, s@),
{
    paint(color, "1;95", s)
}

pub fn cyan(color: bool, s: &str) -> (out: String)
    ensures
        out@ == painted(color, "1;96"@, s@),
{
    paint(color, "1;96", s)
}

pub fn green(color: bool, s: &str) -> (out: String)
    ensures
        out@ == painted(color, "1;92"@, s@),
{
    paint(color, "1;92", s)
}

pub fn bold_cyan(color: bool, s: &str) -> (out: String)
    ensures
        out@ == painted(color, "1;96"@, s@),
{
    paint(color, "1;96", s)
}

pub fn blue(color: bool, s: &str) -> (out: String)
    ensures
        out@ == painted(color, "1;94"@, s@),
{
    paint(color, "1;94", s)
}

/// The lines of the banner: an empty one, the logo with one bright color per
/// line, what the program is, and an empty one.
pub open spec fn banner(color: bool) -> Seq<Seq<char>> {
    seq![
        Seq::<char>::empty(),
        painted(color, "1;91"@, "           __               __"@),
        painted(color, "1;93"@, " _      __/ /_  __  _______/ /___ _      __"@),
        painted(color, "1;92"@, "| | /| / / __ \\/ / / / ___/ / __ \\ | /| / /"@),
        painted(color, "1;96"@, "| |/ |/ / / / / /_/ (__  ) / /_/ / |/ |/ /"@),
        painted(color, "1;94"@, "|__/|__/_/ /_/\\__, /____/_/\\____/|__/|__/"@),
        painted(color, "1;95"@, "             /____/                        "@),
        "  "@ + painted(
            color,
            "1"@,
            "debug why a Linux process was slow \u{2014} eBPF causal-chain tracing"@,
        ),
        Seq::<char>::empty(),
    ]
}

/// The lines of the banner.
pub fn banner_lines(color: bool) -> (lines: Vec<String>)
    ensures
        causal::texts(lines@) == banner(color),
{
    let mut lines: Vec<String> = Vec::new();
    lines.push(String::new());
    lines.push(paint(color, "1;91", "           __               __"));
    lines.push(paint(color, "1;93", " _      __/ /_  __  _______/ /___ _      __"));
    lines.push(paint(color, "1;92", "| | /| / / __ \\/ / / / ___/ / __ \\ | /| / /"));
    lines.push(paint(color, "1;96", "| |/ |/ / / / / /_/ (__  ) / /_/ / |/ |/ /"));
    lines.push(paint(color, "1;94", "|__/|__/_/ /_/\\__, /____/_/\\____/|__/|__/"));
    lines.push(paint(color, "1;95", "             /____/                        "));
    let mut tagline = String::new();
    tagline.append("  ");
    let claim = bold(
        color,
        "debug why a Linux process was slow \u{2014} eBPF causal-chain tracing",
    );
    tagline.append(claim.as_str());
    assert(tagline@ =~= banner(color)[7]);
    lines.push(tagline);
    lines.push(String::new());
    assert(causal::texts(lines@) =~= banner(color));
    lines
}

/// The words of a command with a space between each two.
pub open spec fn joined(words: Seq<Seq<char>>) -> Seq<char>
    decreases words.len(),
{
    if words.len() == 0 {
        Seq::empty()
    } else if words.len() == 1 {
        words[0]
    } else {
        joined(words.drop_last()) + " "@ + words.last()
    }
}

/// The words of a command with a space between each two.
pub fn join_words(words: &Vec<String>) -> (line: String)
    ensures
        line@ == joined(causal::texts(words@)),
{
    let ghost all = causal::texts(words@);
    let mut line = String::new();
    assert(line@ =~= joined(all.take(0)));
    let mut i: usize = 0;
    while i < words.len()
        invariant
            i <= words.len(),
            all == causal::texts(words@),
            line@ == joined(all.take(i as int)),
        decreases words.len() - i,
    {
        proof {
            let next = all.take(i + 1);
            assert(next.drop_last() =~= all.take(i as int));
            assert(next.last() == words@[i as int]@);
        }
        let ghost before = line@;
        if i > 0 {
            line.append(" ");
        }
        line.append(words[i].as_str());
        assert(line@ =~= joined(all.take(i + 1)));
        i = i + 1;
    }
    assert(all.take(i as int) =~= all);
    line
}

/// The line that announces which command is traced.
pub fn tracing_line(color: bool, command: &Vec<String>) -> (line: String)
    ensures
        line@ == painted(color, "1;94"@, "\u{25b8} tracing:"@) + " "@ + painted(
            color,
            "1"@,
            joined(causal::texts(command@)),
        ),
{
    let mut line = blue(color, "\u{25b8} tracing:");
    line.append(" ");
    let words = join_words(command);
    let bright = bold(color, words.as_str());
    line.append(bright.as_str());
    line
}

/// In color a text stands between the sequence that switches the code on and the one
/// that switches everything off; without color nothing is added to it.
pub proof fn law_color_surrounds_the_text(code: Seq<char>, s: Seq<char>)
    ensures
        painted(true, code, s) == seq!['\x1b', '['] + code + seq!['m'] + s + seq![
            '\x1b',
            '[',
            '0',
            'm',
        ],
        painted(false, code, s) == s,
{
    reveal_strlit("\x1b[");
    reveal_strlit("m");
    reveal_strlit("\x1b[0m");
    assert("\x1b["@ =~= seq!['\x1b', '[']);
    assert("m"@ =~= seq!['m']);
    assert("\x1b[0m"@ =~= seq!['\x1b', '[', '0', 'm']);
}

/// One word is joined to itself; two lists of words are joined with a space between.
pub proof fn law_words_are_joined_by_spaces(
    word: Seq<char>,
    a: Seq<Seq<char>>,
    b: Seq<Seq<char>>,
)
    requires
        a.len() > 0,
        b.len() > 0,
    ensures
        joined(Seq::<Seq<char>>::empty()).len() == 0,
        joined(seq![word]) == word,
        joined(a + b) == joined(a) + seq![' '] + joined(b),
    decreases b.len(),
{
    reveal_strlit(" ");
    assert(" "@ =~= seq![' ']);
    assert((a + b).drop_last() =~= a + b.drop_last());
    assert((a + b).last() == b.last());
    if b.len() == 1 {
        assert(b.drop_last() =~= Seq::<Seq<char>>::empty());
        assert(a + b.drop_last() =~= a);
    } else {
        law_words_are_joined_by_spaces(word, a, b.drop_last());
    }
    assert(joined(a + b) =~= joined(a) + seq![' '] + joined(b));
}

} // verus!
