//! Skill metadata: the name declared in a skill file's front matter.

use vstd::prelude::*;

verus! {

/// Metadata for one skill inside a plugin.
#[derive(Debug)]
pub struct SkillMetadata {
    pub dir_name: String,
    pub display_name: String,
    pub path: String,
}

/// A front-matter blank: space, tab or carriage return.
pub open spec fn blank_char(c: char) -> bool {
    c == ' ' || c == '\t' || c == '\r'
}

/// The index of the first line break in `s`, or its length.
pub open spec fn first_newline(s: Seq<char>) -> int
    decreases s.len(),
{
    if s.len() == 0 {
        0
    } else if s[0] == '\n' {
        0
    } else {
        1 + first_newline(s.drop_first())
    }
}

proof fn lemma_first_newline_at(s: Seq<char>, i: int)
    requires
        0 <= i <= s.len(),
        forall|k: int| 0 <= k < i ==> s[k] != '\n',
        i == s.len() || s[i] == '\n',
    ensures
        first_newline(s) == i,
    decreases i,
{
    if s.len() == 0 || i == 0 {
    } else {
        assert(s.drop_first().len() == s.len() - 1);
        assert forall|k: int| 0 <= k < i - 1 implies s.drop_first()[k] != '\n' by {
            assert(s[k + 1] != '\n');
        }
        if i < s.len() {
            assert(s.drop_first()[i - 1] == s[i]);
        }
        lemma_first_newline_at(s.drop_first(), i - 1);
    }
}

/// The number of dashes among the first `i` characters of `s`.
pub open spec fn dash_count(s: Seq<char>, i: int) -> int
    decreases i,
{
    if i <= 0 {
        0
    } else {
        dash_count(s, i - 1) + if s[i - 1] == '-' {
            1int
        } else {
            0int
        }
    }
}

/// Whether the text opens a front-matter block: its first line holds exactly
/// three dashes and otherwise only blanks.
pub open spec fn frontmatter_open(s: Seq<char>) -> bool {
    &&& dash_count(s, first_newline(s)) == 3
    &&& forall|k: int| 0 <= k < first_newline(s) ==> s[k] == '-' || blank_char(#[trigger] s[k])
}

/// Parses the `name:` field out of the front matter of a skill file: the
/// text between the opening `---` line and the closing one, on a line of the
/// shape `name: value`, quotes stripped. `None` when no front matter or no
/// non-empty name is present; a returned name is a non-empty contiguous piece
/// of the text itself.
#[verifier::loop_isolation(false)]
pub fn parse_skill_name_from_frontmatter(content: &str) -> (r: Option<String>)
    ensures
        r matches Some(n) ==> n@.len() > 0,
        !frontmatter_open(content@) ==> r is None,
        r matches Some(n) ==> exists|a: int, b: int|
            0 <= a <= b <= content@.len() && n@ == #[trigger] content@.subrange(a, b),
{
    let len = content.unicode_len();
    // The first line must be exactly `---` (surrounding blanks allowed).
    let mut i: usize = 0;
    let mut dashes: usize = 0;
    let mut only = true;
    while i < len && content.get_char(i) != '\n'
        invariant
            i <= len,
            len == content@.len(),
            dashes <= i,
            forall|k: int| 0 <= k < i ==> content@[k] != '\n',
            dashes == dash_count(content@, i as int),
            only == forall|k: int|
                0 <= k < i ==> content@[k] == '-' || blank_char(#[trigger] content@[k]),
        decreases len - i,
    {
        let c = content.get_char(i);
        let ghost onlypre = only;
        if c == '-' {
            dashes += 1;
        } else if c != ' ' && c != '\t' && c != '\r' {
            only = false;
        }
        proof {
            if only {
                assert forall|k: int|
                    0 <= k < i + 1 implies content@[k] == '-' || blank_char(
                    #[trigger] content@[k],
                ) by {}
            } else {
                if onlypre {
                    assert(!(content@[i as int] == '-' || blank_char(content@[i as int])));
                } else {
                    let k = choose|k: int|
                        0 <= k < i && !(content@[k] == '-' || blank_char(content@[k]));
                    assert(!(content@[k] == '-' || blank_char(content@[k])));
                }
            }
        }
        i += 1;
    }
    proof {
        lemma_first_newline_at(content@, i as int);
    }
    if !(only && dashes == 3) {
        return None;
    }
    if i < len {
        i += 1;
    }
    // Scan the remaining lines until the closing `---`.
    while i < len
        invariant
            i <= len,
            len == content@.len(),
        decreases len - i,
    {
        let mut j = i;
        while j < len && content.get_char(j) != '\n'
            invariant
                i <= j <= len,
                len == content@.len(),
            decreases len - j,
        {
            j += 1;
        }
        // Trim the line.
        let mut a = i;
        while a < j && is_blank(content.get_char(a))
            invariant
                i <= a <= j <= len,
                len == content@.len(),
            decreases j - a,
        {
            a += 1;
        }
        let mut b = j;
        while b > a && is_blank(content.get_char(b - 1))
            invariant
                a <= b <= j,
                len == content@.len(),
            decreases b,
        {
            b -= 1;
        }
        let line = content.substring_char(a, b);
        if crate::paths::str_eq(line, "---") {
            return None;
        }
        if crate::paths::starts_with(line, "name:") {
            let llen = line.unicode_len();
            proof {
                reveal_strlit("name:");
            }
            let mut x: usize = 5;
            while x < llen && is_blank(line.get_char(x))
                invariant
                    5 <= x <= llen,
                    llen == line@.len(),
                decreases llen - x,
            {
                x += 1;
            }
            let mut y = llen;
            while y > x && is_blank(line.get_char(y - 1))
                invariant
                    x <= y <= llen,
                    llen == line@.len(),
                decreases y,
            {
                y -= 1;
            }
            // Strip one layer of matching quote characters.
            if y > x && (line.get_char(x) == '"' || line.get_char(x) == '\'') {
                x += 1;
            }
            if y > x && (line.get_char(y - 1) == '"' || line.get_char(y - 1) == '\'') {
                y -= 1;
            }
            if y > x {
                let out = line.substring_char(x, y).to_owned();
                proof {
                    assert(out@ == line@.subrange(x as int, y as int));
                    assert(line@ == content@.subrange(a as int, b as int));
                    assert(out@ =~= content@.subrange(a + x as int, a + y as int));
                }
                return Some(out);
            }
            return None;
        }
        if j < len {
            i = j + 1;
        } else {
            i = len;
        }
    }
    None
}

fn is_blank(c: char) -> (r: bool)
    ensures
        r == (c == ' ' || c == '\t' || c == '\r'),
{
    c == ' ' || c == '\t' || c == '\r'
}

/// The skills of a plugin: every immediate child of its `skills` directory
/// that holds a skill file, with the display name from the front matter or
/// the directory name.
pub fn enumerate_skills(fs: &crate::fsm::Fs, plugin_path: &str) -> (r: Vec<SkillMetadata>)
    requires
        fs.wf(),
{
    let skills_dir = crate::paths::join(plugin_path, "skills");
    let names = fs.subdir_names(skills_dir.as_str());
    let mut out: Vec<SkillMetadata> = Vec::new();
    let n = names.len();
    let mut i: usize = 0;
    while i < n
        invariant
            i <= n,
            n == names@.len(),
            fs.wf(),
        decreases n - i,
    {
        let dir = crate::paths::join(skills_dir.as_str(), names[i].as_str());
        let md = crate::paths::join(dir.as_str(), "SKILL.md");
        match fs.read_file(md.as_str()) {
            Some(content) => {
                let display = match parse_skill_name_from_frontmatter(content.as_str()) {
                    Some(nm) => nm,
                    None => names[i].clone(),
                };
                out.push(
                    SkillMetadata { dir_name: names[i].clone(), display_name: display, path: dir },
                );
            },
            None => {},
        }
        i += 1;
    }
    out
}

/// Resolves a skill input — a path or a name — to its directory.
pub fn resolve_skill(fs: &crate::fsm::Fs, plugin_path: &str, input: &str) -> (r: Result<
    String,
    crate::errors::SoukError,
>)
    requires
        fs.wf(),
{
    let direct_md = crate::paths::join(input, "SKILL.md");
    if fs.has_dir(input) && fs.has_file(direct_md.as_str()) {
        return Ok(input.to_owned());
    }
    let under_skills = crate::paths::join(crate::paths::join(plugin_path, "skills").as_str(), input);
    let under_md = crate::paths::join(under_skills.as_str(), "SKILL.md");
    if fs.has_dir(under_skills.as_str()) && fs.has_file(under_md.as_str()) {
        return Ok(under_skills);
    }
    let all = enumerate_skills(fs, plugin_path);
    let n = all.len();
    let mut i: usize = 0;
    while i < n
        invariant
            i <= n,
            n == all@.len(),
        decreases n - i,
    {
        if crate::paths::str_eq(all[i].display_name.as_str(), input) {
            return Ok(all[i].path.clone());
        }
        i += 1;
    }
    Err(
        crate::errors::SoukError::SkillNotFound {
            plugin: crate::paths::basename(plugin_path),
            skill: input.to_owned(),
        },
    )
}

} // verus!
