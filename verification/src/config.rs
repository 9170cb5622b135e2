//! The settings file: lines of `key = "value"`, comments and blank lines.
//!
//! A line that starts with `#` is a comment. A line of white space is
//! skipped. Every other line holds a key, an equals sign and a value. Three
//! keys are known, `server`, `api_key` and `name`, and the value of each is
//! a string between double quotes. Lines with other keys are passed over. A
//! key that occurs again replaces what it was set to before. All three keys
//! have to be set.
use vstd::prelude::*;

verus! {

/// A key that the settings file knows.
#[derive(Clone, Copy, PartialEq, Eq, Debug, Structural)]
pub enum Key {
    Server,
    ApiKey,
    Name,
}

/// Why a text is no settings file.
#[derive(Clone, Copy, PartialEq, Eq, Debug, Structural)]
pub enum ConfigError {
    /// A line that is neither comment nor blank has no equals sign.
    ExpectedEquals,
    /// The value of this key is not a string between double quotes.
    ExpectedString(Key),
    /// This key is set nowhere.
    Missing(Key),
}

/// The settings, as slices of the text they were read from.
#[derive(Debug)]
pub struct Config<'a> {
    pub server: &'a str,
    pub api_key: &'a str,
    pub name: &'a str,
}

/// What the settings are, to the contracts.
pub struct ConfigView {
    pub server: Seq<char>,
    pub api_key: Seq<char>,
    pub name: Seq<char>,
}

impl<'a> View for Config<'a> {
    type V = ConfigView;

    open spec fn view(&self) -> ConfigView {
        ConfigView { server: self.server@, api_key: self.api_key@, name: self.name@ }
    }
}

/// The values read so far.
pub struct Fields {
    pub server: Option<Seq<char>>,
    pub api_key: Option<Seq<char>>,
    pub name: Option<Seq<char>>,
}

impl Fields {
    /// Nothing is set.
    pub open spec fn none() -> Fields {
        Fields { server: None, api_key: None, name: None }
    }

    /// These values, with `key` set to `value`.
    pub open spec fn with(self, key: Key, value: Seq<char>) -> Fields {
        match key {
            Key::Server => Fields { server: Some(value), ..self },
            Key::ApiKey => Fields { api_key: Some(value), ..self },
            Key::Name => Fields { name: Some(value), ..self },
        }
    }

    /// The settings, if every key is set, or else the first key that is
    /// missing.
    pub open spec fn complete(self) -> Result<ConfigView, ConfigError> {
        if self.server is None {
            Err(ConfigError::Missing(Key::Server))
        } else if self.api_key is None {
            Err(ConfigError::Missing(Key::ApiKey))
        } else if self.name is None {
            Err(ConfigError::Missing(Key::Name))
        } else {
            Ok(
                ConfigView {
                    server: self.server->0,
                    api_key: self.api_key->0,
                    name: self.name->0,
                },
            )
        }
    }
}

/// Whether `c` is white space, as Unicode has it.
pub open spec fn is_space(c: char) -> bool {
    let u = c as u32;
    ||| 0x09 <= u <= 0x0D
    ||| u == 0x20
    ||| u == 0x85
    ||| u == 0xA0
    ||| u == 0x1680
    ||| 0x2000 <= u <= 0x200A
    ||| u == 0x2028
    ||| u == 0x2029
    ||| u == 0x202F
    ||| u == 0x205F
    ||| u == 0x3000
}

/// The first place from `from` and before `to` where `s` holds `c`, or `to`
/// if there is none.
pub open spec fn first_at(s: Seq<char>, c: char, from: int, to: int) -> int
    decreases to - from,
{
    if from >= to {
        to
    } else if s[from] == c {
        from
    } else {
        first_at(s, c, from + 1, to)
    }
}

/// The first place from `from` and before `to` where `s` holds no white
/// space, or `to` if there is none.
pub open spec fn skip_spaces(s: Seq<char>, from: int, to: int) -> int
    decreases to - from,
{
    if from >= to {
        to
    } else if !is_space(s[from]) {
        from
    } else {
        skip_spaces(s, from + 1, to)
    }
}

/// The end of what is left of `s` between `from` and `to` when the white
/// space at its end is taken away.
pub open spec fn trim_end_at(s: Seq<char>, from: int, to: int) -> int
    decreases to - from,
{
    if to <= from {
        from
    } else if !is_space(s[to - 1]) {
        to
    } else {
        trim_end_at(s, from, to - 1)
    }
}

/// The key that `word` names, if it names one.
pub open spec fn key_of(word: Seq<char>) -> Option<Key> {
    if word == "server"@ {
        Some(Key::Server)
    } else if word == "api_key"@ {
        Some(Key::ApiKey)
    } else if word == "name"@ {
        Some(Key::Name)
    } else {
        None
    }
}

/// What lies between the double quotes, if `s` between `from` and `to` is a
/// string between double quotes.
pub open spec fn quoted(s: Seq<char>, from: int, to: int) -> Option<Seq<char>> {
    if to - from >= 2 && s[from] == '"' && s[to - 1] == '"' {
        Some(s.subrange(from + 1, to - 1))
    } else {
        None
    }
}

/// The values after the line of `s` that runs from `from` to `to`.
pub open spec fn read_line(fields: Fields, s: Seq<char>, from: int, to: int) -> Result<
    Fields,
    ConfigError,
> {
    if from < to && s[from] == '#' {
        Ok(fields)
    } else if skip_spaces(s, from, to) >= to {
        Ok(fields)
    } else {
        let equals = first_at(s, '=', from, to);
        if equals >= to {
            Err(ConfigError::ExpectedEquals)
        } else {
            let word = s.subrange(from, trim_end_at(s, from, equals));
            match key_of(word) {
                None => Ok(fields),
                Some(key) => match quoted(s, skip_spaces(s, equals + 1, to), to) {
                    None => Err(ConfigError::ExpectedString(key)),
                    Some(value) => Ok(fields.with(key, value)),
                },
            }
        }
    }
}

/// The values after the lines of `s` from `from` on. A line ends before the
/// next line feed, or where `s` ends.
pub open spec fn read_from(fields: Fields, s: Seq<char>, from: int) -> Result<Fields, ConfigError>
    decreases s.len() - from,
    via read_from_ends
{
    let to = first_at(s, '\n', from, s.len() as int);
    if from > s.len() {
        Ok(fields)
    } else {
        match read_line(fields, s, from, to) {
            Err(e) => Err(e),
            Ok(next) => if to >= s.len() {
                Ok(next)
            } else {
                read_from(next, s, to + 1)
            },
        }
    }
}

#[via_fn]
proof fn read_from_ends(fields: Fields, s: Seq<char>, from: int) {
    if from <= s.len() {
        lemma_first_at(s, '\n', from, s.len() as int);
    }
}

/// What `first_at` finds lies in the range it searched, holds the character
/// where it lies before the end, and nothing before it holds the character.
pub proof fn lemma_first_at(s: Seq<char>, c: char, from: int, to: int)
    requires
        from <= to,
    ensures
        from <= first_at(s, c, from, to) <= to,
        first_at(s, c, from, to) < to ==> s[first_at(s, c, from, to)] == c,
        forall|i: int| from <= i < first_at(s, c, from, to) ==> s[i] != c,
    decreases to - from,
{
    if from < to && s[from] != c {
        lemma_first_at(s, c, from + 1, to);
    }
}

/// The settings that the text `s` holds, or the first thing that is wrong
/// with it.
pub open spec fn parsed(s: Seq<char>) -> Result<ConfigView, ConfigError> {
    match read_from(Fields::none(), s, 0) {
        Err(e) => Err(e),
        Ok(fields) => fields.complete(),
    }
}


/// A range of places in the text.
#[derive(Clone, Copy)]
struct Span {
    from: usize,
    to: usize,
}

/// What a span of `s` holds, if there is a span.
spec fn slice_of(s: Seq<char>, span: Option<Span>) -> Option<Seq<char>> {
    match span {
        Some(span) => Some(s.subrange(span.from as int, span.to as int)),
        None => None,
    }
}

/// Whether a span, if there is one, lies within a text of length `n`.
spec fn within(span: Option<Span>, n: int) -> bool {
    match span {
        Some(span) => span.from <= span.to <= n,
        None => true,
    }
}

/// The characters of `s`, in a vector.
fn chars_of(s: &str) -> (v: Vec<char>)
    ensures
        v@ == s@,
{
    let mut v: Vec<char> = Vec::new();
    for c in it: s.chars()
        invariant
            it.seq() == s@,
            v@ == it.seq().take(it.index()),
    {
        v.push(c);
        assert(it.seq().take(it.index() + 1) =~= it.seq().take(it.index()).push(c));
    }
    assert(v@ =~= s@);
    v
}

fn is_whitespace(c: char) -> (r: bool)
    ensures
        r == is_space(c),
{
    let u: u32 = c as u32;
    (0x09 <= u && u <= 0x0D) || u == 0x20 || u == 0x85 || u == 0xA0 || u == 0x1680 || (0x2000 <= u
        && u <= 0x200A) || u == 0x2028 || u == 0x2029 || u == 0x202F || u == 0x205F || u
        == 0x3000
}

fn find(chars: &Vec<char>, c: char, from: usize, to: usize) -> (r: usize)
    requires
        from <= to <= chars@.len(),
    ensures
        r == first_at(chars@, c, from as int, to as int),
        from <= r <= to,
{
    let mut i: usize = from;
    while i < to && chars[i] != c
        invariant
            from <= i <= to <= chars@.len(),
            first_at(chars@, c, from as int, to as int) == first_at(chars@, c, i as int, to as int),
        decreases to - i,
    {
        i += 1;
    }
    i
}

fn skip(chars: &Vec<char>, from: usize, to: usize) -> (r: usize)
    requires
        from <= to <= chars@.len(),
    ensures
        r == skip_spaces(chars@, from as int, to as int),
        from <= r <= to,
{
    let mut i: usize = from;
    while i < to && is_whitespace(chars[i])
        invariant
            from <= i <= to <= chars@.len(),
            skip_spaces(chars@, from as int, to as int) == skip_spaces(chars@, i as int, to as int),
        decreases to - i,
    {
        i += 1;
    }
    i
}

fn trim_end(chars: &Vec<char>, from: usize, to: usize) -> (r: usize)
    requires
        from <= to <= chars@.len(),
    ensures
        r == trim_end_at(chars@, from as int, to as int),
        from <= r <= to,
{
    let mut i: usize = to;
    while i > from && is_whitespace(chars[i - 1])
        invariant
            from <= i <= to <= chars@.len(),
            trim_end_at(chars@, from as int, to as int) == trim_end_at(chars@, from as int, i as int),
        decreases i - from,
    {
        i -= 1;
    }
    i
}

/// Whether the text between `from` and `to` is `word`.
fn is_word(chars: &Vec<char>, from: usize, to: usize, word: &str) -> (r: bool)
    requires
        from <= to <= chars@.len(),
    ensures
        r == (chars@.subrange(from as int, to as int) == word@),
{
    let n: usize = word.unicode_len();
    if to - from != n {
        return false;
    }
    let mut i: usize = 0;
    while i < n
        invariant
            from <= to <= chars@.len(),
            to - from == n,
            n == word@.len(),
            i <= n,
            forall|k: int| 0 <= k < i ==> chars@[from + k] == word@[k],
        decreases n - i,
    {
        if chars[from + i] != word.get_char(i) {
            assert(chars@.subrange(from as int, to as int)[i as int] != word@[i as int]);
            return false;
        }
        i += 1;
    }
    assert(chars@.subrange(from as int, to as int) =~= word@);
    true
}

fn key_at(chars: &Vec<char>, from: usize, to: usize) -> (r: Option<Key>)
    requires
        from <= to <= chars@.len(),
    ensures
        r == key_of(chars@.subrange(from as int, to as int)),
{
    if is_word(chars, from, to, "server") {
        Some(Key::Server)
    } else if is_word(chars, from, to, "api_key") {
        Some(Key::ApiKey)
    } else if is_word(chars, from, to, "name") {
        Some(Key::Name)
    } else {
        None
    }
}

/// The span between the double quotes of a string between double quotes.
fn string(chars: &Vec<char>, from: usize, to: usize) -> (r: Option<Span>)
    requires
        from <= to <= chars@.len(),
    ensures
        slice_of(chars@, r) == quoted(chars@, from as int, to as int),
        within(r, chars@.len() as int),
{
    if to - from < 2 {
        return None;
    }
    if chars[from] == '"' && chars[to - 1] == '"' {
        return Some(Span { from: from + 1, to: to - 1 });
    }
    None
}

/// The place where the line that starts at `from` ends.
fn split_line(chars: &Vec<char>, from: usize) -> (r: usize)
    requires
        from <= chars@.len(),
    ensures
        r == first_at(chars@, '\n', from as int, chars@.len() as int),
        from <= r <= chars@.len(),
{
    find(chars, '\n', from, chars.len())
}

/// What a line sets: nothing, or a key to a span.
fn line(chars: &Vec<char>, from: usize, to: usize) -> (r: Result<Option<(Key, Span)>, ConfigError>)
    requires
        from <= to <= chars@.len(),
    ensures
        forall|fields: Fields|
            #[trigger] read_line(fields, chars@, from as int, to as int) == (match r {
                Err(e) => Err::<Fields, ConfigError>(e),
                Ok(None) => Ok(fields),
                Ok(Some((key, span))) => Ok(
                    fields.with(key, chars@.subrange(span.from as int, span.to as int)),
                ),
            }),
        r matches Ok(Some((_, span))) ==> span.from <= span.to <= chars@.len(),
{
    if from < to && chars[from] == '#' {
        return Ok(None);
    }
    if skip(chars, from, to) >= to {
        return Ok(None);
    }
    let equals: usize = find(chars, '=', from, to);
    if equals >= to {
        return Err(ConfigError::ExpectedEquals);
    }
    let key: Key = match key_at(chars, from, trim_end(chars, from, equals)) {
        None => {
            return Ok(None);
        },
        Some(key) => key,
    };
    match string(chars, skip(chars, equals + 1, to), to) {
        None => Err(ConfigError::ExpectedString(key)),
        Some(span) => Ok(Some((key, span))),
    }
}

/// Reads the settings from the text `s`.
///
/// Gives the first thing that is wrong with the text, in the order of its
/// lines, and after them the first key that no line sets.
pub fn parse<'a>(s: &'a str) -> (r: Result<Config<'a>, ConfigError>)
    ensures
        match r {
            Ok(config) => parsed(s@) == Ok::<ConfigView, ConfigError>(config@),
            Err(e) => parsed(s@) == Err::<ConfigView, ConfigError>(e),
        },
{
    let chars: Vec<char> = chars_of(s);
    let n: usize = chars.len();
    let mut server: Option<Span> = None;
    let mut api_key: Option<Span> = None;
    let mut name: Option<Span> = None;
    let mut from: usize = 0;
    let mut done: bool = false;
    while !done
        invariant
            chars@ == s@,
            n == chars@.len(),
            from <= n,
            within(server, n as int),
            within(api_key, n as int),
            within(name, n as int),
            !done ==> read_from(Fields::none(), s@, 0) == read_from(
                Fields {
                    server: slice_of(s@, server),
                    api_key: slice_of(s@, api_key),
                    name: slice_of(s@, name),
                },
                s@,
                from as int,
            ),
            done ==> read_from(Fields::none(), s@, 0) == Ok::<Fields, ConfigError>(
                Fields {
                    server: slice_of(s@, server),
                    api_key: slice_of(s@, api_key),
                    name: slice_of(s@, name),
                },
            ),
        decreases n - from + (if done { 0int } else { 1int }),
    {
        let ghost fields = Fields {
            server: slice_of(s@, server),
            api_key: slice_of(s@, api_key),
            name: slice_of(s@, name),
        };
        let to: usize = split_line(&chars, from);
        let set = line(&chars, from, to);
        assert(read_line(fields, s@, from as int, to as int) == (match set {
            Err(e) => Err::<Fields, ConfigError>(e),
            Ok(None) => Ok(fields),
            Ok(Some((key, span))) => Ok(
                fields.with(key, s@.subrange(span.from as int, span.to as int)),
            ),
        }));
        match set {
            Err(e) => {
                return Err(e);
            },
            Ok(None) => {},
            Ok(Some((Key::Server, span))) => {
                server = Some(span);
            },
            Ok(Some((Key::ApiKey, span))) => {
                api_key = Some(span);
            },
            Ok(Some((Key::Name, span))) => {
                name = Some(span);
            },
        }
        if to >= n {
            done = true;
        } else {
            from = to + 1;
        }
    }
    match (server, api_key, name) {
        (None, _, _) => Err(ConfigError::Missing(Key::Server)),
        (Some(_), None, _) => Err(ConfigError::Missing(Key::ApiKey)),
        (Some(_), Some(_), None) => Err(ConfigError::Missing(Key::Name)),
        (Some(a), Some(b), Some(c)) => Ok(
            Config {
                server: s.substring_char(a.from, a.to),
                api_key: s.substring_char(b.from, b.to),
                name: s.substring_char(c.from, c.to),
            },
        ),
    }
}

} // verus!
