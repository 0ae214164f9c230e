use crate::import_profile::ImportProfileDataSourceConfig;
use crate::table_mapper::table_mapper_raw::TableMapperRaw;
use crate::text::chars_of;
use vstd::prelude::*;

verus! {

/// An import profile as its document spells it.
#[derive(Debug)]
pub struct ImportProfileRaw {
    pub name: String,
    pub description: Option<String>,
    pub data_source_config: ImportProfileDataSourceConfig,
    pub preprocess_script: Option<PreprocessScript>,
    pub table_mappers: Vec<TableMapperRaw>,
}

/// The script that preprocesses records: a file, or the text itself.
#[derive(Debug)]
#[allow(inconsistent_fields)]
pub enum PreprocessScript {
    File { path: String, language: Option<PreprocessLanguage> },
    Inline { script: String, language: PreprocessLanguage },
}

/// The languages that a preprocess script can be written in.
#[derive(Debug, Clone, Copy, PartialEq, Eq, Structural)]
pub enum PreprocessLanguage {
    Lua,
    Rhai,
}

/// The position behind the last `c` in `s`, 0 where there is none.
pub open spec fn after_last(s: Seq<char>, c: char) -> int
    decreases s.len(),
{
    if s.len() == 0 {
        0
    } else if s.last() == c {
        s.len() as int
    } else {
        after_last(s.drop_last(), c)
    }
}

/// The path ends in a separator, or in a component that is a single dot:
/// neither belongs to the name of the file.
pub open spec fn ends_idle(path: Seq<char>) -> bool {
    path.len() > 0 && (path.last() == '/' || (path.last() == '.' && (path.len() == 1
        || path[path.len() - 2] == '/')))
}

/// The path up to the end of its last component that names something:
/// separators at the end and components that are a single dot are dropped.
pub open spec fn path_to_name(path: Seq<char>) -> Seq<char>
    decreases path.len(),
{
    if ends_idle(path) {
        path_to_name(path.drop_last())
    } else {
        path
    }
}

/// The position behind the last separator of the path, 0 where there is
/// none: where the name of the file begins.
pub open spec fn file_name_start(path: Seq<char>) -> int {
    after_last(path, '/')
}

/// The extension of the file that a path names: what follows the last dot of
/// the file name, unless the name begins with that dot or has none. The name
/// is the last component of the path that is neither empty nor a single dot;
/// two dots name no file.
pub open spec fn path_extension(path: Seq<char>) -> Option<Seq<char>> {
    let path = path_to_name(path);
    let name = path.skip(file_name_start(path));
    let dot = after_last(name, '.');
    if name.len() == 0 || dot <= 1 || name == seq!['.', '.'] {
        None
    } else {
        Some(name.skip(dot))
    }
}

/// The language that an extension stands for.
pub open spec fn language_of_extension(extension: Seq<char>) -> Option<PreprocessLanguage> {
    if extension == "lua"@ || extension == "luau"@ {
        Some(PreprocessLanguage::Lua)
    } else if extension == "rhai"@ {
        Some(PreprocessLanguage::Rhai)
    } else {
        None
    }
}

/// The language of a script: the one named; for a file without one, the one
/// that its extension stands for.
pub open spec fn script_language(script: PreprocessScript) -> Option<PreprocessLanguage> {
    match script {
        PreprocessScript::File { path, language } => match language {
            Some(l) => Some(l),
            None => match path_extension(path@) {
                Some(e) => language_of_extension(e),
                None => None,
            },
        },
        PreprocessScript::Inline { language, .. } => Some(language),
    }
}

fn position_after_last(s: &Vec<char>, from: usize, c: char) -> (r: usize)
    requires
        from <= s@.len(),
    ensures
        r == after_last(s@.skip(from as int), c),
        r <= s@.len() - from,
{
    let ghost tail = s@.skip(from as int);
    let mut found: usize = 0;
    let mut i: usize = from;
    assert(tail.take(0) =~= Seq::<char>::empty());
    while i < s.len()
        invariant
            from <= i <= s.len(),
            tail == s@.skip(from as int),
            found == after_last(tail.take(i - from), c),
            found <= i - from,
        decreases s.len() - i,
    {
        proof {
            assert(tail.take(i - from + 1).drop_last() == tail.take(i - from));
            assert(tail.take(i - from + 1).last() == s@[i as int]);
        }
        if s[i] == c {
            found = i - from + 1;
        }
        i += 1;
    }
    assert(tail.take(s@.len() - from) == tail);
    found
}

fn same_text(chars: &Vec<char>, from: usize, word: &str) -> (r: bool)
    requires
        from <= chars@.len(),
    ensures
        r == (chars@.skip(from as int) == word@),
{
    let expected = chars_of(word);
    if chars.len() - from != expected.len() {
        return false;
    }
    let mut i: usize = 0;
    while i < expected.len()
        invariant
            i <= expected.len(),
            from <= chars@.len() <= usize::MAX,
            chars@.len() - from == expected@.len(),
            expected@ == word@,
            forall|k: int| 0 <= k < i ==> chars@[from + k] == expected@[k],
        decreases expected.len() - i,
    {
        assert(from + i < chars@.len());
        if chars[from + i] != expected[i] {
            assert(chars@.skip(from as int)[i as int] != expected@[i as int]);
            return false;
        }
        i += 1;
    }
    assert(chars@.skip(from as int) =~= expected@);
    true
}

fn ends_idle_exec(path: &Vec<char>) -> (r: bool)
    ensures
        r == ends_idle(path@),
{
    let n = path.len();
    n > 0 && (path[n - 1] == '/' || (path[n - 1] == '.' && (n == 1 || path[n - 2] == '/')))
}

impl PreprocessScript {
    /// The language that the script is written in, if it can be told.
    pub fn language(&self) -> (r: Option<PreprocessLanguage>)
        ensures
            r == script_language(*self),
    {
        match self {
            PreprocessScript::File { path, language } => match language {
                Some(language) => Some(*language),
                None => {
                    let mut chars = chars_of(path.as_str());
                    while ends_idle_exec(&chars)
                        invariant
                            path_to_name(path@) == path_to_name(chars@),
                        decreases chars@.len(),
                    {
                        chars.pop();
                    }
                    let start = position_after_last(&chars, 0, '/');
                    assert(chars@.skip(0) == chars@);
                    let dot = position_after_last(&chars, start, '.');
                    let ghost name = chars@.skip(start as int);
                    if chars.len() - start == 0 || dot <= 1 {
                        return None;
                    }
                    if chars.len() - start == 2 && chars[start] == '.' && chars[start + 1] == '.' {
                        assert(name =~= seq!['.', '.']);
                        return None;
                    }
                    proof {
                        if name == seq!['.', '.'] {
                            assert(name.len() == 2);
                            assert(name[0] == '.' && name[1] == '.');
                        }
                        assert(name.skip(dot as int) =~= chars@.skip(start + dot));
                    }
                    let at = start + dot;
                    if same_text(&chars, at, "lua") || same_text(&chars, at, "luau") {
                        Some(PreprocessLanguage::Lua)
                    } else if same_text(&chars, at, "rhai") {
                        Some(PreprocessLanguage::Rhai)
                    } else {
                        None
                    }
                },
            },
            PreprocessScript::Inline { language, .. } => Some(*language),
        }
    }

    /// How the script is shown: its path, or a mark for a script that the
    /// profile holds itself.
    pub fn display(&self) -> (r: String)
        ensures
            r@ == (match *self {
                PreprocessScript::File { path, .. } => path@,
                PreprocessScript::Inline { .. } => "<inline>"@,
            }),
    {
        match self {
            PreprocessScript::File { path, .. } => path.clone(),
            PreprocessScript::Inline { .. } => "<inline>".to_owned(),
        }
    }
}

} // verus!
