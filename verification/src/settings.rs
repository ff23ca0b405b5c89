//! One-time desktop defaults in the user's settings file.

use crate::command;
use crate::text;
use vstd::prelude::*;
use vstd::string::*;

verus! {

/// The directory of the user profile, under the home directory.
pub const PROFILE_DIR: &'static str = ".dsh";

/// The settings file, in the user profile.
pub const SETTINGS_FILE: &'static str = "settings.yaml";

/// The namespace of the defaults, a key at the top level of the settings.
/// Where a settings file holds it, the user's own settings stand.
pub const DESKTOP_NAMESPACE: &'static str = "dsh-better-sidebar";

/// [`DESKTOP_NAMESPACE`] in double quotes.
pub const DOUBLE_QUOTED_NAMESPACE: &'static str = "\"dsh-better-sidebar\"";

/// [`DESKTOP_NAMESPACE`] in single quotes.
pub const SINGLE_QUOTED_NAMESPACE: &'static str = "'dsh-better-sidebar'";

/// The mark that a text file may start with.
pub const BYTE_ORDER_MARK: char = '\u{feff}';

/// The defaults: the side card starts collapsed.
pub const DESKTOP_SETTINGS_BLOCK: &'static str =
    "\ndsh-better-sidebar:\n  openByDefault: false\n";

/// The path of the settings file under the home directory `home`.
pub fn settings_path(home: &str) -> (path: String)
    ensures
        path@ == command::joined(command::joined(home@, PROFILE_DIR@), SETTINGS_FILE@),
        home@.len() > 0 && home@.last() != '/' ==> path@ == home@ + "/.dsh/settings.yaml"@,
        home@.len() == 0 || home@.last() == '/' ==> path@ == home@ + ".dsh/settings.yaml"@,
{
    proof {
        the_settings_lie_in_the_profile(home@);
    }
    let profile = command::join_path(home, PROFILE_DIR);
    command::join_path(profile.as_str(), SETTINGS_FILE)
}

/// The settings file is `.dsh/settings.yaml` under the home directory.
pub proof fn the_settings_lie_in_the_profile(home: Seq<char>)
    ensures
        command::joined(command::joined(home, PROFILE_DIR@), SETTINGS_FILE@) == (if home.len() > 0
            && home.last() != '/' {
            home + "/.dsh/settings.yaml"@
        } else {
            home + ".dsh/settings.yaml"@
        }),
{
    reveal_strlit(".dsh");
    reveal_strlit("settings.yaml");
    reveal_strlit("/.dsh/settings.yaml");
    reveal_strlit(".dsh/settings.yaml");
    let profile = command::joined(home, PROFILE_DIR@);
    assert(profile.last() == 'h');
    let path = command::joined(profile, SETTINGS_FILE@);
    if home.len() > 0 && home.last() != '/' {
        assert(path =~= home + "/.dsh/settings.yaml"@);
    } else {
        assert(path =~= home + ".dsh/settings.yaml"@);
    }
}

/// The settings that `content` becomes: itself without trailing white space,
/// a line break, and the defaults.
pub open spec fn with_defaults(content: Seq<char>) -> Seq<char> {
    text::without_trailing_space(content) + seq!['\n'] + DESKTOP_SETTINGS_BLOCK@
}

/// `content` without the byte order mark that it may start with.
pub open spec fn without_mark(content: Seq<char>) -> Seq<char> {
    if content.len() > 0 && content[0] == BYTE_ORDER_MARK {
        content.skip(1)
    } else {
        content
    }
}

/// Whether a line starts at position `at` of `s`.
pub open spec fn line_starts_at(s: Seq<char>, at: int) -> bool {
    at == 0 || (0 < at <= s.len() && s[at - 1] == '\n')
}

/// Whether a document marker stands at position `at` of `s`: three dashes.
pub open spec fn marker_at(s: Seq<char>, at: int) -> bool {
    0 <= at && at + 3 <= s.len() && s[at] == '-' && s[at + 1] == '-' && s[at + 2] == '-'
}

/// The position at which the settings proper start, looking from position `at`
/// on: behind white space, comment lines, directive lines and document markers.
/// `in_remark` says whether `at` lies in a comment or a directive.
pub open spec fn first_content(s: Seq<char>, at: int, in_remark: bool) -> int
    decreases s.len() - at,
{
    if at < 0 || at >= s.len() {
        s.len() as int
    } else if in_remark {
        first_content(s, at + 1, s[at] != '\n')
    } else if text::is_white_space(s[at]) {
        first_content(s, at + 1, false)
    } else if s[at] == '#' || s[at] == '%' {
        first_content(s, at + 1, true)
    } else if marker_at(s, at) {
        first_content(s, at + 3, false)
    } else {
        at
    }
}

/// How many spaces stand right before position `at` of `s`.
pub open spec fn spaces_before(s: Seq<char>, at: int) -> nat
    decreases at,
{
    if 0 < at <= s.len() && s[at - 1] == ' ' {
        spaces_before(s, at - 1) + 1
    } else {
        0
    }
}

/// By how many spaces the keys at the top level of `s` are indented.
pub open spec fn root_indent(s: Seq<char>) -> nat {
    spaces_before(s, first_content(s, 0, false))
}

/// Whether the settings `s` are one mapping in braces.
pub open spec fn is_braced(s: Seq<char>) -> bool {
    let first = first_content(s, 0, false);
    first < s.len() && s[first] == '{'
}

/// Whether a line of `s` starts with `indent` spaces that end at position `at`.
pub open spec fn indented_at(s: Seq<char>, at: int, indent: int) -> bool {
    &&& 0 <= at - indent
    &&& at <= s.len()
    &&& line_starts_at(s, at - indent)
    &&& forall|i: int| at - indent <= i < at ==> #[trigger] s[i] == ' '
}

/// Whether a key of the top level can stand at position `at` of `s`: at the
/// start of a line, at the indent of the top level, or, in a mapping in braces,
/// at the start of a word. In braces a key further inside counts too: there is
/// no place behind the braces for the defaults.
pub open spec fn key_can_stand_at(s: Seq<char>, at: int) -> bool {
    ||| line_starts_at(s, at)
    ||| indented_at(s, at, root_indent(s) as int)
    ||| is_braced(s) && 0 < at <= s.len() && (s[at - 1] == '{' || s[at - 1] == ','
        || text::is_white_space(s[at - 1]))
}

/// Whether `s` is a colon with anything behind it, after white space in the
/// same line if any.
pub open spec fn colon_comes_next(s: Seq<char>) -> bool
    decreases s.len(),
{
    if s.len() > 0 && s[0] != '\n' && text::is_white_space(s[0]) {
        colon_comes_next(s.drop_first())
    } else {
        s.len() > 0 && s[0] == ':'
    }
}

/// Whether `written` stands in `content` at position `at`, as a key.
pub open spec fn key_at(content: Seq<char>, written: Seq<char>, at: int) -> bool {
    text::occurs_at(content, written, at) && colon_comes_next(content.skip(at + written.len()))
}

/// `s` between two quotes `quote`.
pub open spec fn quoted(quote: char, s: Seq<char>) -> Seq<char> {
    seq![quote] + s + seq![quote]
}

/// Whether the namespace stands at position `at` of `s` as a key of the top
/// level, plain or in one pair of quotes.
pub open spec fn namespace_at(s: Seq<char>, at: int) -> bool {
    &&& key_can_stand_at(s, at)
    &&& {
        ||| key_at(s, DESKTOP_NAMESPACE@, at)
        ||| key_at(s, quoted('"', DESKTOP_NAMESPACE@), at)
        ||| key_at(s, quoted('\'', DESKTOP_NAMESPACE@), at)
    }
}

/// Whether `content` holds the namespace.
pub open spec fn holds_namespace(content: Seq<char>) -> bool {
    exists|at: int| namespace_at(without_mark(content), at)
}

/// What to write to the settings file that holds `content`, if anything:
/// nothing to a file that cannot be read, nor to one that holds the namespace.
pub open spec fn settings_to_write(content: Option<Seq<char>>) -> Option<Seq<char>> {
    match content {
        Some(held) => if holds_namespace(held) {
            None
        } else {
            Some(with_defaults(held))
        },
        None => None,
    }
}

/// Whether a colon comes next in `chars`, from position `from` on.
fn finds_colon(chars: &Vec<char>, from: usize) -> (found: bool)
    requires
        from <= chars@.len(),
    ensures
        found == colon_comes_next(chars@.skip(from as int)),
{
    let mut at: usize = from;
    while at < chars.len() && chars[at] != '\n' && chars[at].is_whitespace()
        invariant
            from <= at <= chars@.len(),
            colon_comes_next(chars@.skip(from as int)) == colon_comes_next(chars@.skip(at as int)),
        decreases chars@.len() - at,
    {
        assert(chars@.skip(at as int).drop_first() =~= chars@.skip(at + 1));
        at += 1;
    }
    at < chars.len() && chars[at] == ':'
}

/// Whether `written` stands in `chars` at position `at`, as a key.
fn finds_key(chars: &Vec<char>, written: &Vec<char>, at: usize) -> (found: bool)
    requires
        at <= chars@.len(),
    ensures
        found == key_at(chars@, written@, at as int),
{
    let len: usize = chars.len();
    text::stands_at(chars, written, at) && written.len() <= len - at && finds_colon(
        chars,
        at + written.len(),
    )
}

/// The position at which the settings proper start.
fn find_content(chars: &Vec<char>) -> (first: usize)
    ensures
        first <= chars@.len(),
        first == first_content(chars@, 0, false),
{
    let len: usize = chars.len();
    let mut at: usize = 0;
    let mut in_remark = false;
    while at < len
        invariant
            len == chars@.len(),
            at <= len,
            first_content(chars@, 0, false) == first_content(chars@, at as int, in_remark),
        decreases len - at,
    {
        let c = chars[at];
        if in_remark {
            in_remark = c != '\n';
            at += 1;
        } else if c.is_whitespace() {
            at += 1;
        } else if c == '#' || c == '%' {
            in_remark = true;
            at += 1;
        } else if len - at >= 3 && c == '-' && chars[at + 1] == '-' && chars[at + 2] == '-' {
            at += 3;
        } else {
            return at;
        }
    }
    at
}

/// How many spaces stand right before position `at`.
fn count_spaces(chars: &Vec<char>, at: usize) -> (count: usize)
    requires
        at <= chars@.len(),
    ensures
        count <= at,
        count == spaces_before(chars@, at as int),
{
    let mut count: usize = 0;
    while count < at && chars[at - count - 1] == ' '
        invariant
            count <= at <= chars@.len(),
            spaces_before(chars@, at as int) == count + spaces_before(chars@, at - count),
        decreases at - count,
    {
        count += 1;
    }
    count
}

/// Whether a line starts with `indent` spaces that end at position `at`.
fn is_indented_at(chars: &Vec<char>, at: usize, indent: usize) -> (b: bool)
    requires
        at <= chars@.len(),
    ensures
        b == indented_at(chars@, at as int, indent as int),
{
    if indent > at {
        return false;
    }
    let start: usize = at - indent;
    if start > 0 && chars[start - 1] != '\n' {
        return false;
    }
    let mut i: usize = start;
    while i < at
        invariant
            start <= i <= at <= chars@.len(),
            start == at - indent,
            forall|k: int| start <= k < i ==> #[trigger] chars@[k] == ' ',
        decreases at - i,
    {
        if chars[i] != ' ' {
            return false;
        }
        i += 1;
    }
    true
}

/// Whether `content` holds the namespace.
pub fn has_namespace(content: &str) -> (found: bool)
    ensures
        found == holds_namespace(content@),
{
    let mut chars = text::chars_of(content);
    if chars.len() > 0 && chars[0] == BYTE_ORDER_MARK {
        chars.remove(0);
        assert(chars@ =~= content@.skip(1));
    }
    let plain = text::chars_of(DESKTOP_NAMESPACE);
    let double = text::chars_of(DOUBLE_QUOTED_NAMESPACE);
    let single = text::chars_of(SINGLE_QUOTED_NAMESPACE);
    proof {
        reveal_strlit("dsh-better-sidebar");
        reveal_strlit("\"dsh-better-sidebar\"");
        reveal_strlit("'dsh-better-sidebar'");
        assert(double@ =~= quoted('"', DESKTOP_NAMESPACE@));
        assert(single@ =~= quoted('\'', DESKTOP_NAMESPACE@));
    }
    let ghost s = without_mark(content@);
    let len: usize = chars.len();
    let first = find_content(&chars);
    let indent = count_spaces(&chars, first);
    let braced = first < len && chars[first] == '{';
    let mut at: usize = 0;
    while at < len
        invariant
            len == chars@.len(),
            chars@ == s,
            indent == root_indent(s),
            braced == is_braced(s),
            plain@ == DESKTOP_NAMESPACE@,
            double@ == quoted('"', DESKTOP_NAMESPACE@),
            single@ == quoted('\'', DESKTOP_NAMESPACE@),
            s == without_mark(content@),
            at <= len,
            forall|k: int| 0 <= k < at ==> !namespace_at(s, k),
        decreases len - at,
    {
        let can_stand = at == 0 || chars[at - 1] == '\n' || is_indented_at(&chars, at, indent) || (
        braced && (chars[at - 1] == '{' || chars[at - 1] == ',' || chars[at - 1].is_whitespace()));
        assert(can_stand == key_can_stand_at(s, at as int));
        if can_stand && (finds_key(&chars, &plain, at) || finds_key(&chars, &double, at)
            || finds_key(&chars, &single, at)) {
            assert(namespace_at(s, at as int));
            return true;
        }
        assert(!namespace_at(s, at as int));
        at += 1;
    }
    proof {
        reveal_strlit("dsh-better-sidebar");
        assert(DESKTOP_NAMESPACE@.len() > 0);
    }
    false
}

/// What to write to the settings file so that the desktop defaults are in it.
/// `content` is what the file holds, or `None` when it cannot be read; the
/// answer is `None` when there is nothing to write.
pub fn ensure_desktop_settings(content: Option<String>) -> (next: Option<String>)
    ensures
        text::opt_text(next) == settings_to_write(text::opt_text(content)),
{
    match content {
        Some(held) => {
            if has_namespace(held.as_str()) {
                return None;
            }
            let mut next = text::trim_trailing_space(held.as_str()).to_owned();
            proof {
                reveal_strlit("\n");
                assert("\n"@ =~= seq!['\n']);
            }
            next.append("\n");
            next.append(DESKTOP_SETTINGS_BLOCK);
            Some(next)
        },
        None => None,
    }
}

/// The namespace is in whatever ends with the defaults.
proof fn lemma_defaults_hold_the_namespace(content: Seq<char>)
    ensures
        holds_namespace(with_defaults(content)),
{
    reveal_strlit("dsh-better-sidebar");
    reveal_strlit("\ndsh-better-sidebar:\n  openByDefault: false\n");
    let whole = with_defaults(content);
    let next = without_mark(whole);
    let cut = whole.len() - next.len();
    let at = text::without_trailing_space(content).len() as int + 2 - cut;
    let key = DESKTOP_NAMESPACE@;
    if cut > 0 {
        assert(whole[0] == BYTE_ORDER_MARK);
        assert(text::without_trailing_space(content).len() > 0);
    }
    assert(next[at - 1] == '\n');
    assert(next.subrange(at, at + key.len()) =~= key);
    assert(next.skip(at + key.len())[0] == ':');
    assert(namespace_at(next, at));
}

/// The defaults are written once: what was written has nothing added to it.
pub proof fn defaults_are_written_once(content: Option<Seq<char>>)
    ensures
        settings_to_write(content) matches Some(next) ==> settings_to_write(Some(next)) is None,
{
    if let Some(held) = content {
        lemma_defaults_hold_the_namespace(held);
    }
}

/// The user's settings are kept: what is written starts with what the file
/// held, all but white space at its end, and ends with the defaults.
pub proof fn defaults_keep_what_was_there(content: Seq<char>)
    ensures
        settings_to_write(Some(content)) matches Some(next) ==> {
            let kept = text::without_trailing_space(content);
            &&& kept.is_prefix_of(content)
            &&& kept.is_prefix_of(next)
            &&& (seq!['\n'] + DESKTOP_SETTINGS_BLOCK@).is_suffix_of(next)
            &&& next.len() == kept.len() + 1 + DESKTOP_SETTINGS_BLOCK@.len()
            &&& forall|i: int|
                kept.len() <= i < content.len() ==> text::is_white_space(#[trigger] content[i])
        },
{
    text::lemma_without_trailing_space_shape(content);
    if let Some(next) = settings_to_write(Some(content)) {
        let kept = text::without_trailing_space(content);
        assert(kept =~= content.subrange(0, kept.len() as int));
        assert(kept =~= next.subrange(0, kept.len() as int));
        let tail = seq!['\n'] + DESKTOP_SETTINGS_BLOCK@;
        assert(tail =~= next.subrange(next.len() - tail.len(), next.len() as int));
    }
}

/// The user's own settings win: a file that holds the namespace is left as it
/// is.
pub proof fn own_settings_win(content: Seq<char>)
    requires
        holds_namespace(content),
    ensures
        settings_to_write(Some(content)) is None,
{
}

/// The defaults are made to exist: a file that can be read holds the namespace
/// afterwards, its own or that of the defaults.
pub proof fn the_namespace_exists_afterwards(content: Seq<char>)
    ensures
        match settings_to_write(Some(content)) {
            Some(next) => holds_namespace(next),
            None => holds_namespace(content),
        },
{
    lemma_defaults_hold_the_namespace(content);
}

/// Whether `key` is the namespace as a settings file can write it: plain, or
/// in one pair of quotes.
pub open spec fn writes_namespace(key: Seq<char>) -> bool {
    ||| key == "dsh-better-sidebar"@
    ||| key == "\"dsh-better-sidebar\""@
    ||| key == "'dsh-better-sidebar'"@
}

/// Whether `gap` is white space within a line, or nothing.
pub open spec fn is_gap(gap: Seq<char>) -> bool {
    forall|i: int|
        0 <= i < gap.len() ==> text::is_white_space(#[trigger] gap[i]) && gap[i] != '\n'
}

proof fn lemma_colon_behind_gap(gap: Seq<char>, after: Seq<char>)
    requires
        is_gap(gap),
    ensures
        colon_comes_next(gap + seq![':'] + after),
    decreases gap.len(),
{
    let s = gap + seq![':'] + after;
    if gap.len() > 0 {
        let rest = gap.drop_first();
        assert forall|i: int| 0 <= i < rest.len() implies text::is_white_space(#[trigger] rest[i])
            && rest[i] != '\n' by {
            assert(rest[i] == gap[i + 1]);
        }
        lemma_colon_behind_gap(rest, after);
        assert(s.drop_first() =~= rest + seq![':'] + after);
        assert(s[0] == gap[0]);
    } else {
        assert(s[0] == ':');
    }
}

/// A key and a colon that stand in a text at a place for keys hold the
/// namespace.
proof fn lemma_key_holds_the_namespace(
    before: Seq<char>,
    key: Seq<char>,
    gap: Seq<char>,
    after: Seq<char>,
)
    requires
        writes_namespace(key),
        is_gap(gap),
        key_can_stand_at(before + key + gap + seq![':'] + after, before.len() as int),
    ensures
        namespace_at(before + key + gap + seq![':'] + after, before.len() as int),
{
    reveal_strlit("dsh-better-sidebar");
    reveal_strlit("\"dsh-better-sidebar\"");
    reveal_strlit("'dsh-better-sidebar'");
    let s = before + key + gap + seq![':'] + after;
    let at = before.len() as int;
    assert("\"dsh-better-sidebar\""@ =~= quoted('"', DESKTOP_NAMESPACE@));
    assert("'dsh-better-sidebar'"@ =~= quoted('\'', DESKTOP_NAMESPACE@));
    assert(s.subrange(at, at + key.len()) =~= key);
    assert(s.skip(at + key.len()) =~= gap + seq![':'] + after);
    lemma_colon_behind_gap(gap, after);
    assert(key_at(s, key, at));
}

/// A text that starts with none is its own text without the mark; one that is
/// the mark and another text is that other text.
proof fn lemma_mark(s: Seq<char>)
    ensures
        without_mark(seq![BYTE_ORDER_MARK] + s) == s,
{
    assert((seq![BYTE_ORDER_MARK] + s).skip(1) =~= s);
}

/// The user's own settings win wherever they stand: a file with a line that
/// starts with the namespace and a colon is left as it is, whatever the file
/// holds before and after that. The namespace may be in quotes, white space may
/// stand before the colon, and the file may start with a byte order mark.
pub proof fn a_line_with_the_namespace_is_respected(
    before: Seq<char>,
    key: Seq<char>,
    gap: Seq<char>,
    after: Seq<char>,
)
    requires
        before.len() == 0 || before == seq!['\u{feff}'] || before.last() == '\n',
        writes_namespace(key),
        is_gap(gap),
    ensures
        settings_to_write(Some(before + key + gap + seq![':'] + after)) is None,
{
    reveal_strlit("dsh-better-sidebar");
    reveal_strlit("\"dsh-better-sidebar\"");
    reveal_strlit("'dsh-better-sidebar'");
    let content = before + key + gap + seq![':'] + after;
    let marked = before.len() > 0 && before[0] == BYTE_ORDER_MARK;
    let head = if marked {
        before.skip(1)
    } else {
        before
    };
    let s = head + key + gap + seq![':'] + after;
    if before.len() == 0 {
        assert(content[0] == key[0]);
    } else {
        assert(content[0] == before[0]);
    }
    assert(without_mark(content) =~= s);
    let at = head.len() as int;
    if at > 0 {
        assert(s[at - 1] == before.last());
    }
    lemma_key_holds_the_namespace(head, key, gap, after);
    assert(namespace_at(without_mark(content), at));
}

/// The plain form of [`a_line_with_the_namespace_is_respected`]: whatever stands
/// in the lines before `dsh-better-sidebar:` and behind it, nothing is written.
pub proof fn the_plain_namespace_is_respected(before: Seq<char>, after: Seq<char>)
    requires
        before.len() == 0 || before.last() == '\n',
    ensures
        settings_to_write(Some(before + "dsh-better-sidebar:"@ + after)) is None,
{
    reveal_strlit("dsh-better-sidebar");
    reveal_strlit("dsh-better-sidebar:");
    let key = "dsh-better-sidebar"@;
    a_line_with_the_namespace_is_respected(before, key, Seq::empty(), after);
    assert(before + key + Seq::empty() + seq![':'] + after =~= before + "dsh-better-sidebar:"@
        + after);
}

/// White space is not where the settings start.
proof fn lemma_content_behind_space(s: Seq<char>, from: int, to: int)
    requires
        0 <= from <= to <= s.len(),
        forall|i: int| from <= i < to ==> text::is_white_space(#[trigger] s[i]),
    ensures
        first_content(s, from, false) == first_content(s, to, false),
    decreases to - from,
{
    if from < to {
        assert(text::is_white_space(s[from]));
        lemma_content_behind_space(s, from + 1, to);
    }
}

/// Spaces from the start of a text on are counted in full.
proof fn lemma_spaces_from_the_start(s: Seq<char>, at: int)
    requires
        0 <= at <= s.len(),
        forall|i: int| 0 <= i < at ==> #[trigger] s[i] == ' ',
    ensures
        spaces_before(s, at) == at,
    decreases at,
{
    if at > 0 {
        assert(s[at - 1] == ' ');
        lemma_spaces_from_the_start(s, at - 1);
    }
}

/// The keys of the top level may be indented, all alike: a file whose first key
/// is indented by some spaces, and which has the namespace in a later line
/// behind as many, is left as it is.
pub proof fn an_indented_namespace_is_respected(
    pad: Seq<char>,
    first: char,
    middle: Seq<char>,
    key: Seq<char>,
    gap: Seq<char>,
    after: Seq<char>,
)
    requires
        forall|i: int| 0 <= i < pad.len() ==> #[trigger] pad[i] == ' ',
        !text::is_white_space(first),
        first != '#' && first != '%' && first != '-' && first != '\u{feff}',
        writes_namespace(key),
        is_gap(gap),
    ensures
        settings_to_write(
            Some(
                (pad + seq![first] + middle + seq!['\n'] + pad) + key + gap + seq![':'] + after,
            ),
        ) is None,
{
    let before = pad + seq![first] + middle + seq!['\n'] + pad;
    let content = before + key + gap + seq![':'] + after;
    let n = pad.len() as int;
    let at = before.len() as int;
    assert forall|i: int| 0 <= i < n implies #[trigger] content[i] == ' ' by {
        assert(content[i] == pad[i]);
    }
    assert(content[n] == first);
    assert(content[0] != BYTE_ORDER_MARK);
    assert(text::is_white_space(' '));
    lemma_content_behind_space(content, 0, n);
    assert(first_content(content, n, false) == n);
    lemma_spaces_from_the_start(content, n);
    assert(root_indent(content) == n);
    assert(content[at - n - 1] == '\n');
    assert forall|i: int| at - n <= i < at implies #[trigger] content[i] == ' ' by {
        assert(content[i] == pad[i - (at - n)]);
    }
    assert(indented_at(content, at, n));
    lemma_key_holds_the_namespace(before, key, gap, after);
    assert(namespace_at(without_mark(content), at));
}

/// The settings may be one mapping in braces: there the namespace is found at
/// the start of any word, and the file is left as it is.
pub proof fn a_namespace_in_braces_is_respected(
    lead: Seq<char>,
    inner: Seq<char>,
    key: Seq<char>,
    gap: Seq<char>,
    after: Seq<char>,
)
    requires
        forall|i: int| 0 <= i < lead.len() ==> text::is_white_space(#[trigger] lead[i]),
        inner.len() == 0 || inner.last() == ',' || inner.last() == '{' || text::is_white_space(
            inner.last(),
        ),
        writes_namespace(key),
        is_gap(gap),
    ensures
        settings_to_write(
            Some((lead + seq!['{'] + inner) + key + gap + seq![':'] + after),
        ) is None,
{
    let before = lead + seq!['{'] + inner;
    let content = before + key + gap + seq![':'] + after;
    let n = lead.len() as int;
    let at = before.len() as int;
    assert forall|i: int| 0 <= i < n implies text::is_white_space(#[trigger] content[i]) by {
        assert(content[i] == lead[i]);
    }
    assert(content[n] == '{');
    assert(content[0] != BYTE_ORDER_MARK);
    lemma_content_behind_space(content, 0, n);
    assert(first_content(content, n, false) == n);
    assert(content[at - 1] == before.last());
    lemma_key_holds_the_namespace(before, key, gap, after);
    assert(namespace_at(without_mark(content), at));
}

/// The same behind a document marker.
pub proof fn a_namespace_in_marked_braces_is_respected(
    lead: Seq<char>,
    inner: Seq<char>,
    key: Seq<char>,
    gap: Seq<char>,
    after: Seq<char>,
)
    requires
        forall|i: int| 0 <= i < lead.len() ==> text::is_white_space(#[trigger] lead[i]),
        inner.len() == 0 || inner.last() == ',' || inner.last() == '{' || text::is_white_space(
            inner.last(),
        ),
        writes_namespace(key),
        is_gap(gap),
    ensures
        settings_to_write(
            Some(("---"@ + lead + seq!['{'] + inner) + key + gap + seq![':'] + after),
        ) is None,
{
    reveal_strlit("---");
    let before = "---"@ + lead + seq!['{'] + inner;
    let content = before + key + gap + seq![':'] + after;
    let n = 3 + lead.len() as int;
    let at = before.len() as int;
    assert(content[0] == '-' && content[1] == '-' && content[2] == '-');
    assert(!text::is_white_space('-'));
    assert(first_content(content, 0, false) == first_content(content, 3, false));
    assert forall|i: int| 3 <= i < n implies text::is_white_space(#[trigger] content[i]) by {
        assert(content[i] == lead[i - 3]);
    }
    assert(content[n] == '{');
    lemma_content_behind_space(content, 3, n);
    assert(first_content(content, n, false) == n);
    assert(content[at - 1] == before.last());
    lemma_key_holds_the_namespace(before, key, gap, after);
    assert(namespace_at(without_mark(content), at));
}

/// Where the namespace stands in a text, its name does.
proof fn lemma_name_of_namespace(s: Seq<char>, at: int) -> (name: int)
    requires
        namespace_at(s, at),
    ensures
        0 <= at,
        text::occurs_at(s, "dsh-better-sidebar"@, name),
        name == at || (name == at + 1 && (s[at] == '"' || s[at] == '\'') && name + 18 < s.len()
            && s[name + 18] == s[at]),
        name == at ==> colon_comes_next(s.skip(at + 18)),
{
    reveal_strlit("dsh-better-sidebar");
    let key = DESKTOP_NAMESPACE@;
    if key_at(s, key, at) {
        at
    } else {
        let quote = if key_at(s, quoted('"', key), at) {
            '"'
        } else {
            '\''
        };
        let whole = quoted(quote, key);
        let found = s.subrange(at, at + whole.len());
        assert(found == whole);
        assert(found[0] == quote && found[19] == quote);
        assert(s.subrange(at + 1, at + 19) =~= whole.subrange(1, 19));
        assert(whole.subrange(1, 19) =~= key);
        at + 1
    }
}

/// The name in a text without its mark stands in the text itself.
proof fn lemma_name_in_content(content: Seq<char>, name: int)
    requires
        text::occurs_at(without_mark(content), "dsh-better-sidebar"@, name),
    ensures
        ({
            let cut = content.len() - without_mark(content).len();
            &&& (cut == 0 || cut == 1 && content[0] == '\u{feff}')
            &&& text::occurs_at(content, "dsh-better-sidebar"@, name + cut)
            &&& forall|i: int|
                0 <= i < without_mark(content).len() ==> #[trigger] without_mark(content)[i]
                    == content[i + cut]
        }),
{
    reveal_strlit("dsh-better-sidebar");
    let s = without_mark(content);
    let cut = content.len() - s.len();
    assert(content.subrange(name + cut, name + cut + 18) =~= s.subrange(name, name + 18));
}

/// A file in which the name of the namespace does not occur gets the defaults.
pub proof fn a_file_without_the_name_gets_the_defaults(content: Seq<char>)
    requires
        forall|p: int| !text::occurs_at(content, "dsh-better-sidebar"@, p),
    ensures
        settings_to_write(Some(content)) is Some,
{
    if holds_namespace(content) {
        let s = without_mark(content);
        let at = choose|at: int| namespace_at(s, at);
        let name = lemma_name_of_namespace(s, at);
        lemma_name_in_content(content, name);
    }
}

/// A longer key is another key: a file in which the name of the namespace
/// stands only inside of words, with a character before it that is neither
/// white space nor a brace, a comma, a quote or a byte order mark, gets the
/// defaults.
pub proof fn a_longer_key_is_not_the_namespace(content: Seq<char>)
    requires
        forall|p: int|
            #[trigger] text::occurs_at(content, "dsh-better-sidebar"@, p) ==> p > 0 && {
                let c = content[p - 1];
                &&& !text::is_white_space(c)
                &&& c != '{' && c != ',' && c != '"' && c != '\'' && c != '\u{feff}'
            },
    ensures
        settings_to_write(Some(content)) is Some,
{
    if holds_namespace(content) {
        let s = without_mark(content);
        let cut = content.len() - s.len();
        let at = choose|at: int| namespace_at(s, at);
        let name = lemma_name_of_namespace(s, at);
        lemma_name_in_content(content, name);
        assert(content[name + cut - 1] == if name > 0 {
            s[name - 1]
        } else {
            content[cut - 1]
        });
        assert(text::is_white_space('\n') && text::is_white_space(' '));
        if name == at && !line_starts_at(s, at) && indented_at(s, at, root_indent(s) as int) {
            assert(root_indent(s) > 0);
            assert(s[at - 1] == ' ');
        }
        assert(false);
    }
}

/// A mention is not a key: a file in which the name of the namespace is
/// nowhere followed by a colon, nor by a quote or white space that one could
/// follow, gets the defaults.
pub proof fn a_name_without_a_colon_is_not_the_namespace(content: Seq<char>)
    requires
        forall|p: int|
            #[trigger] text::occurs_at(content, "dsh-better-sidebar"@, p) ==> p + 18
                == content.len() || {
                let c = content[p + 18];
                &&& c == '\n' || !text::is_white_space(c)
                &&& c != ':' && c != '"' && c != '\''
            },
    ensures
        settings_to_write(Some(content)) is Some,
{
    reveal_strlit("dsh-better-sidebar");
    if holds_namespace(content) {
        let s = without_mark(content);
        let cut = content.len() - s.len();
        let at = choose|at: int| namespace_at(s, at);
        let name = lemma_name_of_namespace(s, at);
        lemma_name_in_content(content, name);
        if name + 18 < s.len() {
            assert(s[name + 18] == content[name + cut + 18]);
            if name == at {
                assert(s.skip(at + 18)[0] == s[name + 18]);
            }
        }
        assert(false);
    }
}

/// Whether the namespace's name at position `p` of `s` starts a line, by itself
/// or behind a quote.
pub open spec fn name_starts_line(s: Seq<char>, p: int) -> bool {
    ||| p == 0
    ||| s[p - 1] == '\n'
    ||| (s[p - 1] == '"' || s[p - 1] == '\'') && (p == 1 || s[p - 2] == '\n')
}

/// A comment and a key further inside do not count. A file whose first line
/// starts with a key at its first character, and in which the name of the
/// namespace starts no line, gets the defaults, whether the name stands behind
/// a `#` or behind spaces.
pub proof fn a_name_within_a_line_is_not_the_namespace(content: Seq<char>)
    requires
        content.len() > 0,
        !text::is_white_space(content[0]),
        content[0] != '#' && content[0] != '%' && content[0] != '-' && content[0] != '{'
            && content[0] != '\u{feff}',
        forall|p: int|
            #[trigger] text::occurs_at(content, "dsh-better-sidebar"@, p) ==> !name_starts_line(
                content,
                p,
            ),
    ensures
        settings_to_write(Some(content)) is Some,
{
    if holds_namespace(content) {
        let at = choose|at: int| namespace_at(without_mark(content), at);
        assert(first_content(content, 0, false) == 0);
        assert(root_indent(content) == 0);
        let name = lemma_name_of_namespace(content, at);
        assert(line_starts_at(content, at));
        assert(false);
    }
}

proof fn lemma_content_lies_within(s: Seq<char>, at: int, in_remark: bool)
    requires
        0 <= at <= s.len(),
    ensures
        at <= first_content(s, at, in_remark) <= s.len(),
    decreases s.len() - at,
{
    if at < s.len() {
        if in_remark {
            lemma_content_lies_within(s, at + 1, s[at] != '\n');
        } else if text::is_white_space(s[at]) {
            lemma_content_lies_within(s, at + 1, false);
        } else if s[at] == '#' || s[at] == '%' {
            lemma_content_lies_within(s, at + 1, true);
        } else if marker_at(s, at) {
            lemma_content_lies_within(s, at + 3, false);
        }
    }
}

/// Comments do not count, wherever they stand: a file that holds no brace, in
/// which no line starts with a space, and in which the name of the namespace
/// starts no line, gets the defaults.
pub proof fn a_name_in_a_comment_is_not_the_namespace(content: Seq<char>)
    requires
        !content.contains('{'),
        content.len() > 0 ==> content[0] != ' ' && content[0] != '\u{feff}',
        forall|p: int| !text::occurs_at(content, seq!['\n', ' '], p),
        forall|p: int|
            #[trigger] text::occurs_at(content, "dsh-better-sidebar"@, p) ==> !name_starts_line(
                content,
                p,
            ),
    ensures
        settings_to_write(Some(content)) is Some,
{
    if holds_namespace(content) {
        let at = choose|at: int| namespace_at(without_mark(content), at);
        let name = lemma_name_of_namespace(content, at);
        let indent = root_indent(content) as int;
        if indented_at(content, at, indent) && indent > 0 {
            let start = at - indent;
            assert(content[start] == ' ');
            assert(content.subrange(start - 1, start + 1) =~= seq!['\n', ' ']);
            assert(text::occurs_at(content, seq!['\n', ' '], start - 1));
        }
        lemma_content_lies_within(content, 0, false);
        if is_braced(content) {
            assert(content.contains(content[first_content(content, 0, false)]));
        }
        assert(line_starts_at(content, at));
        assert(false);
    }
}

/// Whether just `n` spaces stand between the start of a line of `s` and
/// position `p`.
pub open spec fn behind_spaces(s: Seq<char>, p: int, n: int) -> bool {
    &&& 0 <= n <= p <= s.len()
    &&& p == n || s[p - n - 1] == '\n'
    &&& forall|i: int| p - n <= i < p ==> #[trigger] s[i] == ' '
}

/// Whether the namespace's name at position `p` of `s` stands `n` spaces from
/// the start of its line, by itself or behind a quote.
pub open spec fn name_behind_spaces(s: Seq<char>, p: int, n: int) -> bool {
    ||| behind_spaces(s, p, n)
    ||| 0 < p <= s.len() && (s[p - 1] == '"' || s[p - 1] == '\'') && behind_spaces(s, p - 1, n)
}

/// A key further inside does not count. A file whose first key is indented by
/// some spaces, and in which the name of the namespace stands at no start of a
/// line and nowhere behind just as many spaces, gets the defaults.
pub proof fn a_deeper_key_is_not_the_namespace(pad: Seq<char>, first: char, rest: Seq<char>)
    requires
        forall|i: int| 0 <= i < pad.len() ==> #[trigger] pad[i] == ' ',
        !text::is_white_space(first),
        first != '#' && first != '%' && first != '-' && first != '{' && first != '\u{feff}',
        forall|p: int| #[trigger]
            text::occurs_at(pad + seq![first] + rest, "dsh-better-sidebar"@, p) ==> {
                &&& !name_behind_spaces(pad + seq![first] + rest, p, 0)
                &&& !name_behind_spaces(pad + seq![first] + rest, p, pad.len() as int)
            },
    ensures
        settings_to_write(Some(pad + seq![first] + rest)) is Some,
{
    let content = pad + seq![first] + rest;
    let n = pad.len() as int;
    assert forall|i: int| 0 <= i < n implies #[trigger] content[i] == ' ' by {
        assert(content[i] == pad[i]);
    }
    assert(content[n] == first);
    assert(content[0] != BYTE_ORDER_MARK);
    assert(text::is_white_space(' '));
    lemma_content_behind_space(content, 0, n);
    assert(first_content(content, n, false) == n);
    lemma_spaces_from_the_start(content, n);
    assert(root_indent(content) == n);
    if holds_namespace(content) {
        let at = choose|at: int| namespace_at(without_mark(content), at);
        let name = lemma_name_of_namespace(content, at);
        if line_starts_at(content, at) {
            assert(behind_spaces(content, at, 0));
        } else {
            assert(indented_at(content, at, n));
            assert(behind_spaces(content, at, n));
        }
        assert(false);
    }
}

/// What is written is what the file held without the white space at its end,
/// an empty line, and the defaults; to a file that cannot be read nothing is.
pub proof fn the_defaults_follow_an_empty_line(kept: Seq<char>, tail: Seq<char>)
    requires
        kept.len() == 0 || !text::is_white_space(kept.last()),
        forall|i: int| 0 <= i < tail.len() ==> text::is_white_space(#[trigger] tail[i]),
    ensures
        settings_to_write(Some(kept + tail)) matches Some(next) ==> next == kept
            + "\n\ndsh-better-sidebar:\n  openByDefault: false\n"@,
        settings_to_write(None) is None,
{
    reveal_strlit("\n\ndsh-better-sidebar:\n  openByDefault: false\n");
    reveal_strlit("\ndsh-better-sidebar:\n  openByDefault: false\n");
    text::trailing_space_is_cut(kept, tail);
    assert(kept + seq!['\n'] + DESKTOP_SETTINGS_BLOCK@ =~= kept
        + "\n\ndsh-better-sidebar:\n  openByDefault: false\n"@);
}

/// White space at the end of a file changes nothing that is written.
pub proof fn trailing_space_does_not_count(kept: Seq<char>, tail: Seq<char>, other: Seq<char>)
    requires
        kept.len() == 0 || !text::is_white_space(kept.last()),
        forall|i: int| 0 <= i < tail.len() ==> text::is_white_space(#[trigger] tail[i]),
        forall|i: int| 0 <= i < other.len() ==> text::is_white_space(#[trigger] other[i]),
        settings_to_write(Some(kept + tail)) is Some,
        settings_to_write(Some(kept + other)) is Some,
    ensures
        settings_to_write(Some(kept + tail)) == settings_to_write(Some(kept + other)),
{
    text::trailing_space_is_cut(kept, tail);
    text::trailing_space_is_cut(kept, other);
}

/// White space at the end of a text is the same behind a mark.
proof fn lemma_marked_tail(content: Seq<char>)
    ensures
        with_defaults(seq![BYTE_ORDER_MARK] + content) == seq![BYTE_ORDER_MARK] + with_defaults(
            content,
        ),
{
    text::lemma_without_trailing_space_shape(content);
    let mark = seq![BYTE_ORDER_MARK];
    let kept = text::without_trailing_space(content);
    let tail = content.skip(kept.len() as int);
    assert forall|i: int| 0 <= i < tail.len() implies text::is_white_space(#[trigger] tail[i]) by {
        assert(tail[i] == content[i + kept.len()]);
    }
    assert((mark + kept) + tail =~= mark + content);
    assert((mark + kept).last() == if kept.len() > 0 {
        kept.last()
    } else {
        BYTE_ORDER_MARK
    });
    text::trailing_space_is_cut(mark + kept, tail);
    assert(with_defaults(mark + content) =~= mark + with_defaults(content));
}

/// A byte order mark changes nothing but that it is kept: a file with one gets
/// what the same file without it gets, behind the mark.
pub proof fn a_byte_order_mark_is_kept(content: Seq<char>)
    requires
        content.len() > 0 ==> content[0] != '\u{feff}',
    ensures
        settings_to_write(Some(seq!['\u{feff}'] + content)) == (match settings_to_write(
            Some(content),
        ) {
            Some(next) => Some(seq!['\u{feff}'] + next),
            None => None,
        }),
{
    lemma_mark(content);
    lemma_marked_tail(content);
    let marked = seq![BYTE_ORDER_MARK] + content;
    assert(without_mark(content) == content);
    assert(without_mark(marked) == content);
    assert(holds_namespace(marked) == holds_namespace(content));
}

/// Where the settings start is not changed by lines before them.
proof fn lemma_content_behind_lines(lines: Seq<char>, s: Seq<char>, at: int, in_remark: bool)
    requires
        0 <= at <= s.len(),
    ensures
        first_content(lines + s, at + lines.len(), in_remark) == first_content(s, at, in_remark)
            + lines.len(),
    decreases s.len() - at,
{
    if at < s.len() {
        let whole = lines + s;
        let there = at + lines.len();
        assert(whole[there] == s[at]);
        assert(marker_at(whole, there) == marker_at(s, at));
        if in_remark {
            lemma_content_behind_lines(lines, s, at + 1, s[at] != '\n');
        } else if text::is_white_space(s[at]) {
            lemma_content_behind_lines(lines, s, at + 1, false);
        } else if s[at] == '#' || s[at] == '%' {
            lemma_content_behind_lines(lines, s, at + 1, true);
        } else if marker_at(s, at) {
            lemma_content_behind_lines(lines, s, at + 3, false);
        }
    }
}

/// Nor is by how much they are indented.
proof fn lemma_spaces_behind_lines(lines: Seq<char>, s: Seq<char>, at: int)
    requires
        lines.len() > 0,
        lines.last() == '\n',
        0 <= at <= s.len(),
    ensures
        spaces_before(lines + s, at + lines.len()) == spaces_before(s, at),
    decreases at,
{
    let whole = lines + s;
    if at > 0 {
        assert(whole[at + lines.len() - 1] == s[at - 1]);
        if s[at - 1] == ' ' {
            lemma_spaces_behind_lines(lines, s, at - 1);
        }
    } else {
        assert(whole[lines.len() - 1] == '\n');
    }
}

/// Nor is what stands in them as a key.
proof fn lemma_namespace_behind_lines(lines: Seq<char>, s: Seq<char>, at: int)
    requires
        lines.len() > 0,
        lines.last() == '\n',
        first_content(lines + s, 0, false) == first_content(lines + s, lines.len() as int, false),
        0 <= at,
    ensures
        namespace_at(lines + s, at + lines.len()) <==> namespace_at(s, at),
{
    let whole = lines + s;
    let k = lines.len() as int;
    let there = at + k;
    let first = first_content(s, 0, false);
    reveal_strlit("dsh-better-sidebar");
    if at < s.len() {
        lemma_content_lies_within(s, 0, false);
        lemma_content_behind_lines(lines, s, 0, false);
        lemma_spaces_behind_lines(lines, s, first);
        let indent = root_indent(s) as int;
        assert(root_indent(whole) == indent);
        assert(first < s.len() ==> whole[first + k] == s[first]);
        assert(is_braced(whole) == is_braced(s));
        assert(whole[k - 1] == '\n');
        assert(line_starts_at(whole, there) == line_starts_at(s, at)) by {
            if at > 0 {
                assert(whole[there - 1] == s[at - 1]);
            }
        }
        assert(key_can_stand_at(whole, there) == key_can_stand_at(s, at)) by {
            if indented_at(s, at, indent) {
                assert forall|i: int| there - indent <= i < there implies #[trigger] whole[i]
                    == ' ' by {
                    assert(s[i - k] == ' ');
                }
                if at - indent > 0 {
                    assert(whole[there - indent - 1] == s[at - indent - 1]);
                }
                assert(indented_at(whole, there, indent));
            }
            if indented_at(whole, there, indent) {
                if at < indent {
                    assert(whole[k - 1] == ' ');
                }
                assert forall|i: int| at - indent <= i < at implies #[trigger] s[i] == ' ' by {
                    assert(whole[i + k] == ' ');
                }
                if at - indent > 0 {
                    assert(whole[there - indent - 1] == s[at - indent - 1]);
                }
                assert(indented_at(s, at, indent));
            }
            if at > 0 {
                assert(whole[there - 1] == s[at - 1]);
            }
        }
        lemma_key_behind_lines(lines, s, DESKTOP_NAMESPACE@, at);
        lemma_key_behind_lines(lines, s, quoted('"', DESKTOP_NAMESPACE@), at);
        lemma_key_behind_lines(lines, s, quoted('\'', DESKTOP_NAMESPACE@), at);
    }
}

proof fn lemma_key_behind_lines(lines: Seq<char>, s: Seq<char>, written: Seq<char>, at: int)
    requires
        0 <= at,
    ensures
        key_at(lines + s, written, at + lines.len()) == key_at(s, written, at),
{
    let whole = lines + s;
    let there = at + lines.len();
    let len = written.len() as int;
    if at + len <= s.len() {
        assert(whole.subrange(there, there + len) =~= s.subrange(at, at + len));
        assert(whole.skip(there + len) =~= s.skip(at + len));
    }
}

/// A file that holds the namespace holds it behind further lines too; one that
/// does not holds it only if these lines do.
proof fn lemma_lines_before(lines: Seq<char>, s: Seq<char>)
    requires
        lines.len() > 0,
        lines.last() == '\n',
        lines[0] != BYTE_ORDER_MARK,
        s.len() > 0 ==> s[0] != BYTE_ORDER_MARK,
        first_content(lines + s, 0, false) == first_content(lines + s, lines.len() as int, false),
    ensures
        holds_namespace(s) ==> holds_namespace(lines + s),
        (forall|at: int| 0 <= at < lines.len() ==> !namespace_at(lines + s, at)) && holds_namespace(
            lines + s,
        ) ==> holds_namespace(s),
{
    let whole = lines + s;
    assert(whole[0] == lines[0]);
    assert(without_mark(whole) == whole);
    assert(without_mark(s) == s);
    if holds_namespace(s) {
        let at = choose|at: int| namespace_at(s, at);
        lemma_namespace_behind_lines(lines, s, at);
        assert(namespace_at(whole, at + lines.len()));
    }
    if (forall|at: int| 0 <= at < lines.len() ==> !namespace_at(whole, at)) && holds_namespace(
        whole,
    ) {
        let at = choose|at: int| namespace_at(whole, at);
        let name = lemma_name_of_namespace(whole, at);
        lemma_namespace_behind_lines(lines, s, at - lines.len());
        assert(namespace_at(s, at - lines.len()));
    }
}

proof fn lemma_remark_is_passed(s: Seq<char>, from: int, to: int)
    requires
        0 <= from <= to < s.len(),
        forall|i: int| from <= i < to ==> #[trigger] s[i] != '\n',
        s[to] == '\n',
    ensures
        first_content(s, from, true) == first_content(s, to + 1, false),
    decreases to - from,
{
    if from < to {
        assert(s[from] != '\n');
        lemma_remark_is_passed(s, from + 1, to);
    }
}

/// A comment or a directive before the settings, indented or not, changes
/// nothing of what is found in them: what is respected in a file is respected
/// behind a comment, and a comment that speaks of the namespace is no reason to
/// leave the defaults out. In a mapping in braces the latter is left open.
pub proof fn a_comment_before_the_settings_does_not_count(
    pad: Seq<char>,
    sign: char,
    comment: Seq<char>,
    settings: Seq<char>,
)
    requires
        is_gap(pad),
        sign == '#' || sign == '%',
        !comment.contains('\n'),
        settings.len() > 0 ==> settings[0] != '\u{feff}',
    ensures
        ({
            let content = pad + seq![sign] + comment + seq!['\n'] + settings;
            &&& settings_to_write(Some(settings)) is None ==> settings_to_write(
                Some(content),
            ) is None
            &&& !settings.contains('{') && settings_to_write(Some(content)) is None
                ==> settings_to_write(Some(settings)) is None
        }),
{
    let lines = pad + seq![sign] + comment + seq!['\n'];
    let content = lines + settings;
    let n = pad.len() as int;
    let k = lines.len() as int;
    assert(content =~= pad + seq![sign] + comment + seq!['\n'] + settings);
    assert forall|i: int| 0 <= i < n implies text::is_white_space(#[trigger] content[i])
        && content[i] != '\n' by {
        assert(content[i] == pad[i]);
    }
    assert(content[n] == sign);
    assert(content[k - 1] == '\n');
    assert forall|i: int| n < i < k - 1 implies #[trigger] content[i] != '\n' by {
        assert(content[i] == comment[i - n - 1]);
        assert(comment.contains(comment[i - n - 1]));
    }
    lemma_content_behind_space(content, 0, n);
    lemma_remark_is_passed(content, n + 1, k - 1);
    assert(first_content(content, 0, false) == first_content(content, k, false));
    assert(lines[0] == content[0]);
    lemma_lines_before(lines, settings);
    if !settings.contains('{') {
        lemma_content_lies_within(settings, 0, false);
        lemma_content_behind_lines(lines, settings, 0, false);
        let first = first_content(settings, 0, false);
        if first < settings.len() {
            assert(content[first + k] == settings[first]);
            assert(settings.contains(settings[first]));
        }
        assert(!is_braced(content));
        assert forall|at: int| 0 <= at < k implies !namespace_at(content, at) by {
            if namespace_at(content, at) {
                let name = lemma_name_of_namespace(content, at);
                reveal_strlit("dsh-better-sidebar");
                assert(content.subrange(name, name + 18)[0] == 'd');
                assert(content[name] == 'd');
                let indent = root_indent(content) as int;
                assert(at > n);
                assert(content[at - 1] != '\n');
                assert(indented_at(content, at, indent));
                if at - indent > 0 {
                    assert(content[at - indent - 1] != '\n');
                }
                assert(content[n] == ' ');
                assert(false);
            }
        }
    }
}

/// Nor does a line of white space.
pub proof fn a_blank_line_before_the_settings_does_not_count(pad: Seq<char>, settings: Seq<char>)
    requires
        is_gap(pad),
        settings.len() > 0 ==> settings[0] != '\u{feff}',
    ensures
        settings_to_write(Some(pad + seq!['\n'] + settings)) is None <==> settings_to_write(
            Some(settings),
        ) is None,
{
    let lines = pad + seq!['\n'];
    let content = lines + settings;
    let k = lines.len() as int;
    assert(text::is_white_space('\n'));
    assert forall|i: int| 0 <= i < k implies text::is_white_space(#[trigger] content[i]) by {
        if i < k - 1 {
            assert(content[i] == pad[i]);
        }
    }
    lemma_content_behind_space(content, 0, k);
    assert(lines[0] == content[0]);
    lemma_lines_before(lines, settings);
    assert forall|at: int| 0 <= at < k implies !namespace_at(content, at) by {
        if namespace_at(content, at) {
            let name = lemma_name_of_namespace(content, at);
            reveal_strlit("dsh-better-sidebar");
            assert(content.subrange(name, name + 18)[0] == 'd');
            assert(content[name] == 'd');
            assert(text::is_white_space(content[at]));
        }
    }
}

/// Nor does a document marker in a line of its own.
pub proof fn a_marker_before_the_settings_does_not_count(gap: Seq<char>, settings: Seq<char>)
    requires
        is_gap(gap),
        settings.len() > 0 ==> settings[0] != '\u{feff}',
    ensures
        settings_to_write(Some("---"@ + gap + seq!['\n'] + settings)) is None
            <==> settings_to_write(Some(settings)) is None,
{
    reveal_strlit("---");
    let lines = "---"@ + gap + seq!['\n'];
    let content = lines + settings;
    let k = lines.len() as int;
    assert(text::is_white_space('\n') && !text::is_white_space('-'));
    assert(content[0] == '-' && content[1] == '-' && content[2] == '-');
    assert(first_content(content, 0, false) == first_content(content, 3, false));
    assert forall|i: int| 3 <= i < k implies text::is_white_space(#[trigger] content[i]) by {
        if i < k - 1 {
            assert(content[i] == gap[i - 3]);
        }
    }
    lemma_content_behind_space(content, 3, k);
    lemma_lines_before(lines, settings);
    assert forall|at: int| 0 <= at < k implies !namespace_at(content, at) by {
        if namespace_at(content, at) {
            let name = lemma_name_of_namespace(content, at);
            reveal_strlit("dsh-better-sidebar");
            assert(content.subrange(name, name + 18)[0] == 'd');
            assert(content[name] == 'd');
            assert(content[at] == '-' || text::is_white_space(content[at]));
        }
    }
}

/// Whether `content` is `before`, then the namespace as the key `key`, white
/// space `gap` within the line, a colon, and anything.
pub open spec fn has_key_behind(
    content: Seq<char>,
    before: Seq<char>,
    key: Seq<char>,
    gap: Seq<char>,
) -> bool {
    &&& writes_namespace(key)
    &&& is_gap(gap)
    &&& (before + key + gap + seq![':']).is_prefix_of(content)
}

proof fn lemma_gap_before_colon(s: Seq<char>) -> (gap: Seq<char>)
    requires
        colon_comes_next(s),
    ensures
        is_gap(gap),
        (gap + seq![':']).is_prefix_of(s),
    decreases s.len(),
{
    if s[0] != '\n' && text::is_white_space(s[0]) {
        let rest = lemma_gap_before_colon(s.drop_first());
        let gap = seq![s[0]] + rest;
        let n = gap.len() + 1;
        let tail = s.drop_first();
        assert forall|i: int| 0 <= i < n implies (gap + seq![':'])[i] == #[trigger] s[i] by {
            if i > 0 {
                assert(s[i] == tail[i - 1]);
                assert((rest + seq![':'])[i - 1] == tail[i - 1]);
            }
        }
        assert(gap + seq![':'] =~= s.subrange(0, n as int));
        gap
    } else {
        let gap = Seq::<char>::empty();
        assert(gap + seq![':'] =~= s.subrange(0, 1));
        gap
    }
}

/// The namespace at a position is a key behind what stands before it.
proof fn lemma_key_of_namespace(s: Seq<char>, at: int) -> (found: (Seq<char>, Seq<char>))
    requires
        namespace_at(s, at),
    ensures
        0 <= at <= s.len(),
        has_key_behind(s, s.take(at), found.0, found.1),
{
    reveal_strlit("dsh-better-sidebar");
    reveal_strlit("\"dsh-better-sidebar\"");
    reveal_strlit("'dsh-better-sidebar'");
    assert("\"dsh-better-sidebar\""@ =~= quoted('"', DESKTOP_NAMESPACE@));
    assert("'dsh-better-sidebar'"@ =~= quoted('\'', DESKTOP_NAMESPACE@));
    let key = if key_at(s, DESKTOP_NAMESPACE@, at) {
        DESKTOP_NAMESPACE@
    } else if key_at(s, quoted('"', DESKTOP_NAMESPACE@), at) {
        quoted('"', DESKTOP_NAMESPACE@)
    } else {
        quoted('\'', DESKTOP_NAMESPACE@)
    };
    let rest = s.skip(at + key.len());
    let gap = lemma_gap_before_colon(rest);
    let head = gap + seq![':'];
    let whole = s.take(at) + key + gap + seq![':'];
    assert(s.subrange(at, at + key.len()) == key);
    assert forall|i: int| 0 <= i < whole.len() implies whole[i] == #[trigger] s[i] by {
        if at <= i < at + key.len() {
            assert(s[i] == s.subrange(at, at + key.len())[i - at]);
        } else if i >= at + key.len() {
            assert(s[i] == rest[i - at - key.len()]);
            assert(head[i - at - key.len()] == rest[i - at - key.len()]);
        }
    }
    assert(whole =~= s.subrange(0, whole.len() as int));
    (key, gap)
}

/// A key behind what stands before it is the namespace at that position.
proof fn lemma_namespace_of_key(
    s: Seq<char>,
    before: Seq<char>,
    key: Seq<char>,
    gap: Seq<char>,
)
    requires
        has_key_behind(s, before, key, gap),
        key_can_stand_at(s, before.len() as int),
    ensures
        namespace_at(s, before.len() as int),
{
    let head = before + key + gap + seq![':'];
    let after = s.skip(head.len() as int);
    assert(s =~= head + after);
    lemma_key_holds_the_namespace(before, key, gap, after);
}

/// Just which files are left as they are. In a file whose first key stands
/// behind some spaces, the namespace is respected exactly as a key that starts a
/// line, or that stands behind as many spaces as the first key.
pub proof fn just_the_top_level_is_respected(pad: Seq<char>, first: char, rest: Seq<char>)
    requires
        forall|i: int| 0 <= i < pad.len() ==> #[trigger] pad[i] == ' ',
        !text::is_white_space(first),
        first != '#' && first != '%' && first != '{' && first != '\u{feff}',
        first == '-' ==> !seq!['-', '-'].is_prefix_of(rest),
    ensures
        ({
            let content = pad + seq![first] + rest;
            settings_to_write(Some(content)) is None <==> exists|
                before: Seq<char>,
                key: Seq<char>,
                gap: Seq<char>,
            | #[trigger]
                has_key_behind(content, before, key, gap) && (behind_spaces(
                    content,
                    before.len() as int,
                    0,
                ) || behind_spaces(content, before.len() as int, pad.len() as int))
        }),
{
    let content = pad + seq![first] + rest;
    let n = pad.len() as int;
    assert forall|i: int| 0 <= i < n implies #[trigger] content[i] == ' ' by {
        assert(content[i] == pad[i]);
    }
    assert(content[n] == first);
    if marker_at(content, n) {
        assert(rest[0] == content[n + 1] && rest[1] == content[n + 2]);
        assert(seq!['-', '-'] =~= rest.subrange(0, 2));
    }
    assert(content[0] != BYTE_ORDER_MARK);
    assert(without_mark(content) == content);
    assert(text::is_white_space(' '));
    lemma_content_behind_space(content, 0, n);
    assert(first_content(content, n, false) == n);
    lemma_spaces_from_the_start(content, n);
    assert(root_indent(content) == n);
    assert(!is_braced(content));
    if holds_namespace(content) {
        let at = choose|at: int| namespace_at(content, at);
        let (key, gap) = lemma_key_of_namespace(content, at);
        if line_starts_at(content, at) {
            assert(behind_spaces(content, at, 0));
        } else {
            assert(indented_at(content, at, n));
            assert(behind_spaces(content, at, n));
        }
        assert(content.take(at).len() == at);
        assert(has_key_behind(content, content.take(at), key, gap));
    }
    if exists|before: Seq<char>, key: Seq<char>, gap: Seq<char>| #[trigger]
        has_key_behind(content, before, key, gap) && (behind_spaces(content, before.len() as int, 0)
            || behind_spaces(content, before.len() as int, n)) {
        let (before, key, gap) = choose|before: Seq<char>, key: Seq<char>, gap: Seq<char>|
            #[trigger]
            has_key_behind(content, before, key, gap) && (behind_spaces(
                content,
                before.len() as int,
                0,
            ) || behind_spaces(content, before.len() as int, n));
        let at = before.len() as int;
        if behind_spaces(content, at, 0) {
            assert(line_starts_at(content, at));
        } else {
            assert(indented_at(content, at, n));
        }
        lemma_namespace_of_key(content, before, key, gap);
    }
}

/// In a mapping in braces the namespace is respected exactly as a key that
/// starts a word: behind a brace, a comma or white space.
pub proof fn just_words_in_braces_are_respected(lead: Seq<char>, rest: Seq<char>)
    requires
        forall|i: int| 0 <= i < lead.len() ==> text::is_white_space(#[trigger] lead[i]),
    ensures
        ({
            let content = lead + seq!['{'] + rest;
            settings_to_write(Some(content)) is None <==> exists|
                before: Seq<char>,
                key: Seq<char>,
                gap: Seq<char>,
            | #[trigger]
                has_key_behind(content, before, key, gap) && before.len() > 0 && (before.last()
                    == '{' || before.last() == ',' || text::is_white_space(before.last()))
        }),
{
    let content = lead + seq!['{'] + rest;
    let n = lead.len() as int;
    assert forall|i: int| 0 <= i < n implies text::is_white_space(#[trigger] content[i]) by {
        assert(content[i] == lead[i]);
    }
    assert(content[n] == '{');
    assert(content[0] != BYTE_ORDER_MARK);
    assert(without_mark(content) == content);
    lemma_content_behind_space(content, 0, n);
    assert(first_content(content, n, false) == n);
    assert(is_braced(content));
    if holds_namespace(content) {
        let at = choose|at: int| namespace_at(content, at);
        let (key, gap) = lemma_key_of_namespace(content, at);
        let name = lemma_name_of_namespace(content, at);
        reveal_strlit("dsh-better-sidebar");
        assert(content.subrange(name, name + 18)[0] == 'd');
        assert(content[name] == 'd');
        assert(at > 0);
        let before = content.take(at);
        assert(before.last() == content[at - 1]);
        assert(text::is_white_space('\n') && text::is_white_space(' '));
        let indent = root_indent(content) as int;
        if indented_at(content, at, indent) && indent > 0 {
            assert(content[at - 1] == ' ');
        }
        assert(has_key_behind(content, before, key, gap));
    }
    if exists|before: Seq<char>, key: Seq<char>, gap: Seq<char>| #[trigger]
        has_key_behind(content, before, key, gap) && before.len() > 0 && (before.last() == '{'
            || before.last() == ',' || text::is_white_space(before.last())) {
        let (before, key, gap) = choose|before: Seq<char>, key: Seq<char>, gap: Seq<char>|
            #[trigger]
            has_key_behind(content, before, key, gap) && before.len() > 0 && (before.last() == '{'
                || before.last() == ',' || text::is_white_space(before.last()));
        let at = before.len() as int;
        let head = before + key + gap + seq![':'];
        assert(head[at - 1] == content[at - 1]);
        assert(before.last() == content[at - 1]);
        lemma_namespace_of_key(content, before, key, gap);
    }
}

} // verus!
