//! A deliberately small YAML frontmatter reader, and the skill manifest read
//! from a `SKILL.md`.
//!
//! It handles `key: value`, quoted values and folded blocks, which is the
//! whole of what the Agent Skills specification requires. A YAML parser to
//! read six keys would be a dependency with a much larger blast radius than
//! the feature.
use vstd::prelude::*;

use crate::error::Result;
use crate::skill::{skill_warnings, texts, SkillKind, SkillManifest, SkillSource, Validation};
use crate::text::{
    chars_of, lower, lowered, owned, push_char, push_chars, replace_char, same_text, slice_chars,
    split_in, split_on, split_once, split_once_in, string_of, trim, trim_bounds, trimmed, views,
    words, words_in,
};

verus! {

/// A key and its value, as read.
pub type Field = (Seq<char>, Seq<char>);

/// The value of the last field named `key`.
pub open spec fn lookup(fields: Seq<Field>, key: Seq<char>) -> Option<Seq<char>>
    decreases fields.len(),
{
    if fields.len() == 0 {
        None
    } else if fields.last().0 == key {
        Some(fields.last().1)
    } else {
        lookup(fields.drop_last(), key)
    }
}

/// The views of stored fields.
pub open spec fn field_views(v: Seq<(String, String)>) -> Seq<Field> {
    v.map_values(|f: (String, String)| (f.0@, f.1@))
}

/// Where the closing `\n---` starts.
pub open spec fn find_fence(s: Seq<char>) -> Option<int>
    decreases s.len(),
{
    if s.len() < 4 {
        None
    } else if s[0] == '\n' && s[1] == '-' && s[2] == '-' && s[3] == '-' {
        Some(0)
    } else {
        match find_fence(s.drop_first()) {
            Some(i) => Some(i + 1),
            None => None,
        }
    }
}

pub open spec fn is_quote(c: char) -> bool {
    c == '"' || c == '\''
}

pub open spec fn strip_quotes_start(s: Seq<char>) -> Seq<char>
    decreases s.len(),
{
    if s.len() > 0 && is_quote(s[0]) {
        strip_quotes_start(s.drop_first())
    } else {
        s
    }
}

pub open spec fn strip_quotes_end(s: Seq<char>) -> Seq<char>
    decreases s.len(),
{
    if s.len() > 0 && is_quote(s.last()) {
        strip_quotes_end(s.drop_last())
    } else {
        s
    }
}

/// `trim_matches(['"', '\''])`: quotes dropped from both ends.
pub open spec fn unquote(s: Seq<char>) -> Seq<char> {
    strip_quotes_end(strip_quotes_start(s))
}

/// Reading state: fields so far, the key of an open block, and the block's text.
pub type FrontState = (Seq<Field>, Option<Seq<char>>, Seq<char>);

/// The state after reading one line.
pub open spec fn front_step(st: FrontState, line: Seq<char>) -> FrontState {
    let (fields, key, folded) = st;
    if trim(line).len() == 0 {
        st
    } else if line[0] == ' ' || line[0] == '\t' {
        match key {
            Some(k) => (
                fields,
                key,
                (if folded.len() > 0 {
                    folded.push(' ')
                } else {
                    folded
                }) + trim(line),
            ),
            None => st,
        }
    } else {
        let closed = match key {
            Some(k) => fields.push((k, trim(folded))),
            None => fields,
        };
        match split_once(line, ':') {
            None => (closed, None, Seq::empty()),
            Some((k, v)) => {
                let name = lower(trim(k));
                let value = unquote(trim(v));
                if value == seq!['|'] || value == seq!['>'] || value.len() == 0 {
                    (closed, Some(name), Seq::empty())
                } else {
                    (closed.push((name, value)), None, Seq::empty())
                }
            },
        }
    }
}

pub open spec fn front_scan(lines: Seq<Seq<char>>) -> FrontState
    decreases lines.len(),
{
    if lines.len() == 0 {
        (Seq::empty(), None, Seq::empty())
    } else {
        front_step(front_scan(lines.drop_last()), lines.last())
    }
}

/// The fields of the frontmatter of `text`, in the order they were written,
/// or `None` when the text does not open with `---` or never closes it.
pub open spec fn frontmatter(text: Seq<char>) -> Option<Seq<Field>> {
    if text.len() < 3 || text[0] != '-' || text[1] != '-' || text[2] != '-' {
        None
    } else {
        let body = text.skip(3);
        match find_fence(body) {
            None => None,
            Some(end) => {
                let (fields, key, folded) = front_scan(split_on(body.take(end), '\n'));
                Some(
                    match key {
                        Some(k) => fields.push((k, trim(folded))),
                        None => fields,
                    },
                )
            },
        }
    }
}

/// The key/value pairs of a frontmatter block.
#[derive(Debug, Clone, PartialEq, Eq)]
pub struct Frontmatter {
    fields: Vec<(String, String)>,
}

impl Frontmatter {
    pub closed spec fn spec_fields(&self) -> Seq<Field> {
        field_views(self.fields@)
    }

    /// The value given for `key`; a key written twice keeps its last value.
    pub fn get(&self, key: &str) -> (r: Option<&String>)
        ensures
            match r {
                Some(v) => lookup(self.spec_fields(), key@) == Some(v@),
                None => lookup(self.spec_fields(), key@) is None,
            },
    {
        let mut i: usize = self.fields.len();
        assert(field_views(self.fields@).take(i as int) =~= field_views(self.fields@));
        while i > 0
            invariant
                i <= self.fields@.len(),
                lookup(field_views(self.fields@), key@) == lookup(
                    field_views(self.fields@).take(i as int),
                    key@,
                ),
            decreases i,
        {
            let ghost t = field_views(self.fields@).take(i as int);
            assert(t.last() == (self.fields@[i - 1].0@, self.fields@[i - 1].1@));
            if same_text(self.fields[i - 1].0.as_str(), key) {
                return Some(&self.fields[i - 1].1);
            }
            assert(t.drop_last() =~= field_views(self.fields@).take(i - 1));
            i -= 1;
        }
        None
    }

    /// How many fields were read, a key written twice counted twice.
    pub fn len(&self) -> (r: usize)
        ensures
            r == self.spec_fields().len(),
    {
        self.fields.len()
    }
}

proof fn lemma_find_fence(s: Seq<char>, i: int)
    requires
        0 <= i,
        i + 4 <= s.len() || i == s.len(),
        forall|k: int|
            0 <= k < i && k + 4 <= s.len() ==> !(#[trigger] s[k] == '\n' && s[k + 1] == '-' && s[k
                + 2] == '-' && s[k + 3] == '-'),
    ensures
        i + 4 <= s.len() && s[i] == '\n' && s[i + 1] == '-' && s[i + 2] == '-' && s[i + 3] == '-'
            ==> find_fence(s) == Some(i),
    decreases i,
{
    if i > 0 && s.len() >= 4 {
        assert(!(s[0] == '\n' && s[1] == '-' && s[2] == '-' && s[3] == '-'));
        let d = s.drop_first();
        assert forall|k: int|
            0 <= k < i - 1 && k + 4 <= d.len() implies !(#[trigger] d[k] == '\n' && d[k + 1] == '-'
            && d[k + 2] == '-' && d[k + 3] == '-') by {
            assert(d[k] == s[k + 1] && d[k + 1] == s[k + 2] && d[k + 2] == s[k + 3] && d[k + 3]
                == s[k + 4]);
        }
        lemma_find_fence(d, i - 1);
    }
}

proof fn lemma_no_fence(s: Seq<char>)
    requires
        forall|k: int|
            0 <= k && k + 4 <= s.len() ==> !(#[trigger] s[k] == '\n' && s[k + 1] == '-' && s[k + 2]
                == '-' && s[k + 3] == '-'),
    ensures
        find_fence(s) is None,
    decreases s.len(),
{
    if s.len() >= 4 {
        assert(!(s[0] == '\n' && s[1] == '-' && s[2] == '-' && s[3] == '-'));
        let d = s.drop_first();
        assert forall|k: int|
            0 <= k && k + 4 <= d.len() implies !(#[trigger] d[k] == '\n' && d[k + 1] == '-' && d[k
            + 2] == '-' && d[k + 3] == '-') by {
            assert(d[k] == s[k + 1] && d[k + 1] == s[k + 2] && d[k + 2] == s[k + 3] && d[k + 3]
                == s[k + 4]);
        }
        lemma_no_fence(d);
    }
}

/// Where `\n---` first starts in `v`.
fn fence_in(v: &[char]) -> (r: Option<usize>)
    ensures
        match r {
            Some(i) => i + 4 <= v@.len() && find_fence(v@) == Some(i as int),
            None => find_fence(v@) is None,
        },
{
    let mut i: usize = 0;
    while v.len() >= 4 && i <= v.len() - 4
        invariant
            i <= v@.len(),
            forall|k: int|
                0 <= k < i && k + 4 <= v@.len() ==> !(#[trigger] v@[k] == '\n' && v@[k + 1] == '-'
                    && v@[k + 2] == '-' && v@[k + 3] == '-'),
        decreases v@.len() - i,
    {
        if v[i] == '\n' && v[i + 1] == '-' && v[i + 2] == '-' && v[i + 3] == '-' {
            proof {
                lemma_find_fence(v@, i as int);
            }
            return Some(i);
        }
        i += 1;
    }
    proof {
        lemma_no_fence(v@);
    }
    None
}

/// `unquote`, computed.
fn unquoted(v: &[char]) -> (r: Vec<char>)
    ensures
        r@ == unquote(v@),
{
    let n = v.len();
    let mut lo: usize = 0;
    assert(v@.subrange(0, n as int) =~= v@);
    while lo < n && (v[lo] == '"' || v[lo] == '\'')
        invariant
            lo <= n,
            n == v@.len(),
            strip_quotes_start(v@) == strip_quotes_start(v@.subrange(lo as int, n as int)),
        decreases n - lo,
    {
        assert(v@.subrange(lo as int, n as int).drop_first() =~= v@.subrange(lo + 1, n as int));
        lo += 1;
    }
    let ghost rest = v@.subrange(lo as int, n as int);
    assert(strip_quotes_start(rest) == rest);
    let mut hi: usize = n;
    assert(rest.subrange(0, (n - lo) as int) =~= rest);
    while hi > lo && (v[hi - 1] == '"' || v[hi - 1] == '\'')
        invariant
            lo <= hi <= n,
            n == v@.len(),
            rest == v@.subrange(lo as int, n as int),
            strip_quotes_end(rest) == strip_quotes_end(v@.subrange(lo as int, hi as int)),
        decreases hi - lo,
    {
        assert(v@.subrange(lo as int, hi as int).drop_last() =~= v@.subrange(lo as int, hi - 1));
        hi -= 1;
    }
    slice_chars(v, lo, hi)
}

/// `trim`, computed on characters.
fn trim_chars(v: &[char]) -> (r: Vec<char>)
    ensures
        r@ == trim(v@),
{
    let (lo, hi) = trim_bounds(v);
    slice_chars(v, lo, hi)
}

/// Reads the frontmatter of a `SKILL.md`.
pub fn parse_frontmatter(text: &str) -> (r: Option<Frontmatter>)
    ensures
        match r {
            Some(f) => frontmatter(text@) == Some(f.spec_fields()),
            None => frontmatter(text@) is None,
        },
{
    let all = chars_of(text);
    if all.len() < 3 || all[0] != '-' || all[1] != '-' || all[2] != '-' {
        return None;
    }
    let body = slice_chars(all.as_slice(), 3, all.len());
    assert(body@ =~= all@.skip(3));
    let end = match fence_in(body.as_slice()) {
        Some(e) => e,
        None => {
            return None;
        },
    };
    let block = slice_chars(body.as_slice(), 0, end);
    assert(block@ =~= body@.take(end as int));
    let lines = split_in(block.as_slice(), '\n');
    let ghost ls = views(lines@);
    let mut fields: Vec<(String, String)> = Vec::new();
    let mut key: Option<Vec<char>> = None;
    let mut folded: Vec<char> = Vec::new();
    let mut i: usize = 0;
    assert(ls.take(0) =~= Seq::<Seq<char>>::empty());
    assert(field_views(fields@) =~= Seq::<Field>::empty());
    while i < lines.len()
        invariant
            ls == views(lines@),
            i <= lines@.len(),
            front_scan(ls.take(i as int)) == (
                field_views(fields@),
                match key {
                    Some(k) => Some(k@),
                    None => None::<Seq<char>>,
                },
                folded@,
            ),
        decreases lines@.len() - i,
    {
        let line = &lines[i];
        proof {
            assert(ls.take(i + 1).drop_last() =~= ls.take(i as int));
            assert(ls.take(i + 1).last() == line@);
        }
        let t = trim_chars(line.as_slice());
        if t.len() == 0 {
        } else if line[0] == ' ' || line[0] == '\t' {
            if key.is_some() {
                if folded.len() > 0 {
                    folded.push(' ');
                }
                let mut j: usize = 0;
                let ghost start = folded@;
                while j < t.len()
                    invariant
                        j <= t@.len(),
                        folded@ == start + t@.take(j as int),
                    decreases t@.len() - j,
                {
                    folded.push(t[j]);
                    j += 1;
                    assert(folded@ =~= start + t@.take(j as int));
                }
                assert(t@.take(j as int) =~= t@);
            }
        } else {
            match key {
                Some(k) => {
                    let value = trim_chars(folded.as_slice());
                    let ghost prior = fields@;
                    fields.push((string_of(k.as_slice()), string_of(value.as_slice())));
                    assert(field_views(fields@) =~= field_views(prior).push((k@, value@)));
                },
                None => {},
            }
            key = None;
            folded = Vec::new();
            match split_once_in(line.as_slice(), ':') {
                None => {},
                Some((k, v)) => {
                    let kt = trim_chars(k.as_slice());
                    let name = lowered(kt.as_slice());
                    let vt = trim_chars(v.as_slice());
                    let value = unquoted(vt.as_slice());
                    let is_block = (value.len() == 1 && (value[0] == '|' || value[0] == '>'))
                        || value.len() == 0;
                    proof {
                        if value@.len() == 1 && value@[0] == '|' {
                            assert(value@ =~= seq!['|']);
                        }
                        if value@.len() == 1 && value@[0] == '>' {
                            assert(value@ =~= seq!['>']);
                        }
                        assert(seq!['|'][0] == '|' && seq!['>'][0] == '>');
                    }
                    if is_block {
                        key = Some(name);
                    } else {
                        let ghost prior = fields@;
                        fields.push((string_of(name.as_slice()), string_of(value.as_slice())));
                        assert(field_views(fields@) =~= field_views(prior).push((name@, value@)));
                    }
                },
            }
        }
        i += 1;
    }
    assert(ls.take(i as int) =~= ls);
    match key {
        Some(k) => {
            let value = trim_chars(folded.as_slice());
            let ghost prior = fields@;
            fields.push((string_of(k.as_slice()), string_of(value.as_slice())));
            assert(field_views(fields@) =~= field_views(prior).push((k@, value@)));
        },
        None => {},
    }
    Some(Frontmatter { fields })
}

/// The view of an optional string.
pub open spec fn opt_view(o: Option<String>) -> Option<Seq<char>> {
    match o {
        Some(s) => Some(s@),
        None => None,
    }
}

/// The view of an optional string slice.
pub open spec fn opt_str_view(o: Option<&str>) -> Option<Seq<char>> {
    match o {
        Some(s) => Some(s@),
        None => None,
    }
}

/// A skill written as a loose `.md` file rather than a `SKILL.md` in its
/// own directory.
pub open spec fn single_file(file_name: Option<Seq<char>>) -> bool {
    file_name != Some("SKILL.md"@)
}

/// The name a manifest takes: its `name` field, else its file's stem (single
/// file) or its directory's name, else nothing.
pub open spec fn manifest_name(
    fields: Seq<Field>,
    file_name: Option<Seq<char>>,
    file_stem: Option<Seq<char>>,
    directory: Option<Seq<char>>,
) -> Seq<char> {
    match lookup(fields, "name"@) {
        Some(n) => n,
        None => match (if single_file(file_name) {
            file_stem
        } else {
            directory
        }) {
            Some(n) => n,
            None => Seq::empty(),
        },
    }
}

pub open spec fn or_empty(o: Option<Seq<char>>) -> Seq<char> {
    match o {
        Some(s) => s,
        None => Seq::empty(),
    }
}

/// The manifest read from a skill file's `text`. `file_name`, `file_stem` and
/// `directory` name the file and its parent directory; `executable` says
/// whether a `pyproject.toml` stands beside it. `None` when the file has no
/// frontmatter or no description: such a skill can never be routed to.
pub fn read_manifest(
    text: &str,
    path: &str,
    file_name: Option<&str>,
    file_stem: Option<&str>,
    directory: Option<&str>,
    executable: bool,
    source: SkillSource,
) -> (r: Option<SkillManifest>)
    ensures
        match frontmatter(text@) {
            None => r is None,
            Some(f) => {
                let name = manifest_name(
                    f,
                    opt_str_view(file_name),
                    opt_str_view(file_stem),
                    opt_str_view(directory),
                );
                let description = or_empty(lookup(f, "description"@));
                if trim(description).len() == 0 {
                    r is None
                } else {
                    r matches Some(m) && {
                        &&& m.name@ == name
                        &&& m.description@ == description
                        &&& m.kind == (if executable {
                            SkillKind::Executable
                        } else {
                            SkillKind::Markdown
                        })
                        &&& m.source == source
                        &&& m.path@ == path@
                        &&& opt_view(m.license) == lookup(f, "license"@)
                        &&& opt_view(m.compatibility) == lookup(f, "compatibility"@)
                        &&& texts(m.allowed_tools@) == match lookup(f, "allowed-tools"@) {
                            Some(v) => words(v),
                            None => Seq::empty(),
                        }
                        &&& m.disable_model_invocation == (lookup(f, "disable-model-invocation"@) matches Some(v) && trim(v) == "true"@)
                        &&& opt_view(m.import_name) == if executable {
                            Some(replace_char(name, '-', '_'))
                        } else {
                            None
                        }
                        &&& texts(m.warnings@) == skill_warnings(
                            name,
                            trim(description),
                            if single_file(opt_str_view(file_name)) {
                                None
                            } else {
                                opt_str_view(directory)
                            },
                        )
                    }
                }
            },
        },
{
    let front = match parse_frontmatter(text) {
        Some(f) => f,
        None => {
            return None;
        },
    };
    let single = match file_name {
        Some(n) => !same_text(n, "SKILL.md"),
        None => true,
    };
    proof {
        reveal_strlit("SKILL.md");
    }
    let fallback = if single {
        file_stem
    } else {
        directory
    };
    let name = match front.get("name") {
        Some(n) => n.clone(),
        None => match fallback {
            Some(n) => owned(n),
            None => String::new(),
        },
    };
    let description = match front.get("description") {
        Some(d) => d.clone(),
        None => String::new(),
    };
    let validation = match Validation::check(
        name.as_str(),
        description.as_str(),
        if single {
            None
        } else {
            directory
        },
    ) {
        Ok(v) => v,
        Err(_) => {
            return None;
        },
    };
    let import_name = if executable {
        Some(SkillManifest::import_name_for(name.as_str()))
    } else {
        None
    };
    let allowed_tools = match front.get("allowed-tools") {
        Some(v) => {
            let chars = chars_of(v.as_str());
            let ws = words_in(chars.as_slice());
            let mut out: Vec<String> = Vec::new();
            let mut i: usize = 0;
            assert(texts(out@) =~= views(ws@).take(0));
            while i < ws.len()
                invariant
                    i <= ws@.len(),
                    texts(out@) == views(ws@).take(i as int),
                decreases ws@.len() - i,
            {
                let w = string_of(ws[i].as_slice());
                let ghost prior = out@;
                out.push(w);
                assert(texts(out@) =~= texts(prior).push(w@));
                assert(views(ws@).take(i + 1) =~= views(ws@).take(i as int).push(ws@[i as int]@));
                i += 1;
            }
            assert(views(ws@).take(i as int) =~= views(ws@));
            out
        },
        None => {
            let out: Vec<String> = Vec::new();
            assert(texts(out@) =~= Seq::<Seq<char>>::empty());
            out
        },
    };
    let disable = match front.get("disable-model-invocation") {
        Some(v) => {
            let t = trimmed(v.as_str());
            let w = chars_of("true");
            crate::text::chars_eq(t.as_slice(), w.as_slice())
        },
        None => false,
    };
    let license = match front.get("license") {
        Some(v) => Some(v.clone()),
        None => None,
    };
    let compatibility = match front.get("compatibility") {
        Some(v) => Some(v.clone()),
        None => None,
    };
    Some(SkillManifest {
        name,
        description,
        kind: if executable {
            SkillKind::Executable
        } else {
            SkillKind::Markdown
        },
        source,
        path: owned(path),
        license,
        compatibility,
        allowed_tools,
        disable_model_invocation: disable,
        import_name,
        warnings: validation.warnings,
    })
}

} // verus!
