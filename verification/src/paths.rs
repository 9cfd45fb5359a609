//! Where cloakroom's files live and how the managed include refers to them.

use vstd::prelude::*;
use vstd::string::StringExecFns;
use vstd::utf8::{
    decode_utf8, decode_utf8_encode_utf8, encode_scalar, encode_utf8, is_ascii_chars,
    is_ascii_chars_encode_utf8, valid_utf8,
};

use crate::file_path::{
    joined, law_joining_adds_one_name, lemma_plain_name, names, optional_path, path_text, rooted,
    single_name, FilePath, SEPARATOR,
};
use crate::status::{hex_digit, hexadecimal};

verus! {

/// Where cloakroom keeps its files, and the string it writes into the global
/// gitconfig to reach them. Every path cloakroom touches comes from here.
#[derive(Debug)]
pub struct Layout {
    /// Directory holding config.toml and generated/.
    pub config_dir: FilePath,
    /// The include.path value written to the global gitconfig. A literal
    /// `~/...` when derived from the home directory, so the user's gitconfig
    /// survives a home move; absolute when XDG_CONFIG_HOME overrides it,
    /// because git never expands that variable in include paths.
    pub include_path: String,
}

/// Where the files live.
pub struct LayoutView {
    pub config_dir: Seq<u8>,
    pub include_path: Seq<char>,
}

impl View for Layout {
    type V = LayoutView;

    open spec fn view(&self) -> LayoutView {
        LayoutView { config_dir: self.config_dir@, include_path: self.include_path@ }
    }
}

/// The layout that an XDG configuration directory and a home directory call
/// for, or what keeps them from it.
pub open spec fn layout(xdg: Option<Seq<u8>>, home: Option<Seq<u8>>) -> Result<
    LayoutView,
    Seq<char>,
> {
    match (xdg, home) {
        (Some(xdg), _) => {
            let config_dir = joined(xdg, encode_utf8("cloakroom"@));
            match path_text(config_dir) {
                Some(text) => Ok(
                    LayoutView { config_dir, include_path: text + "/generated/root.gitconfig"@ },
                ),
                None => Err("XDG_CONFIG_HOME is not valid UTF-8"@),
            }
        },
        (None, Some(home)) => Ok(
            LayoutView {
                config_dir: joined(home, encode_utf8(".config/cloakroom"@)),
                include_path: "~/.config/cloakroom/generated/root.gitconfig"@,
            },
        ),
        (None, None) => Err("cannot determine the home directory"@),
    }
}

/// Whether an outcome is the one that `expected` says.
pub open spec fn is_layout(
    outcome: Result<Layout, String>,
    expected: Result<LayoutView, Seq<char>>,
) -> bool {
    match outcome {
        Ok(layout) => expected == Ok::<LayoutView, Seq<char>>(layout@),
        Err(message) => expected == Err::<LayoutView, Seq<char>>(message@),
    }
}

/// `xdg` unless it is relative: then it must be ignored.
pub open spec fn absolute_only(xdg: Option<Seq<u8>>) -> Option<Seq<u8>> {
    match xdg {
        Some(path) if rooted(path) => Some(path),
        _ => None,
    }
}

/// The configuration file in `config_dir`.
pub open spec fn config_file(config_dir: Seq<u8>) -> Seq<u8> {
    joined(config_dir, encode_utf8("config.toml"@))
}

/// The generated tree in `config_dir`.
pub open spec fn generated_dir(config_dir: Seq<u8>) -> Seq<u8> {
    joined(config_dir, encode_utf8("generated"@))
}

/// The root of the generated tree, the one file the user's gitconfig names.
pub open spec fn root_gitconfig(config_dir: Seq<u8>) -> Seq<u8> {
    joined(generated_dir(config_dir), encode_utf8("root.gitconfig"@))
}

/// The directory of the generated objects.
pub open spec fn objects_dir(config_dir: Seq<u8>) -> Seq<u8> {
    joined(generated_dir(config_dir), encode_utf8("objects"@))
}

/// The generated object with this digest.
pub open spec fn object_gitconfig(config_dir: Seq<u8>, digest: Seq<char>) -> Seq<u8> {
    joined(objects_dir(config_dir), encode_utf8(digest + ".gitconfig"@))
}

impl Layout {
    /// The layout for the values of XDG_CONFIG_HOME and of the home directory
    /// that the environment holds. A relative XDG_CONFIG_HOME is ignored.
    pub fn from_env(xdg: Option<FilePath>, home: Option<FilePath>) -> (result: Result<
        Self,
        String,
    >)
        ensures
            is_layout(result, layout(absolute_only(optional_path(xdg)), optional_path(home))),
    {
        match xdg {
            Some(path) => if path.is_absolute() {
                Self::new(Some(path), home)
            } else {
                Self::new(None, home)
            },
            None => Self::new(None, home),
        }
    }

    /// The layout for a configuration directory, where there is one, and a
    /// home directory.
    pub fn new(xdg: Option<FilePath>, home: Option<FilePath>) -> (result: Result<Self, String>)
        ensures
            is_layout(result, layout(optional_path(xdg), optional_path(home))),
    {
        if let Some(xdg) = xdg {
            let config_dir = xdg.join("cloakroom");
            return match config_dir.to_text() {
                Some(text) => {
                    let include_path = text.concat("/generated/root.gitconfig");
                    Ok(Layout { config_dir, include_path })
                },
                None => Err("XDG_CONFIG_HOME is not valid UTF-8".to_owned()),
            };
        }
        match home {
            Some(home) => Ok(
                Layout {
                    config_dir: home.join(".config/cloakroom"),
                    include_path: "~/.config/cloakroom/generated/root.gitconfig".to_owned(),
                },
            ),
            None => Err("cannot determine the home directory".to_owned()),
        }
    }

    /// The configuration file.
    pub fn config_file(&self) -> (result: FilePath)
        ensures
            result@ == config_file(self.config_dir@),
    {
        self.config_dir.join("config.toml")
    }

    /// The directory of everything that is generated.
    pub fn generated_dir(&self) -> (result: FilePath)
        ensures
            result@ == generated_dir(self.config_dir@),
    {
        self.config_dir.join("generated")
    }

    /// The root of the generated tree.
    pub fn root_gitconfig(&self) -> (result: FilePath)
        ensures
            result@ == root_gitconfig(self.config_dir@),
    {
        self.generated_dir().join("root.gitconfig")
    }

    /// The directory of the generated objects.
    pub fn objects_dir(&self) -> (result: FilePath)
        ensures
            result@ == objects_dir(self.config_dir@),
    {
        self.generated_dir().join("objects")
    }

    /// The generated object with this digest.
    pub fn object_gitconfig(&self, digest: &str) -> (result: FilePath)
        ensures
            result@ == object_gitconfig(self.config_dir@, digest@),
    {
        self.objects_dir().join(digest.to_owned().concat(".gitconfig").as_str())
    }
}

////////////////////////////////////////////////////////////////////////////
// Laws

/// Encoding goes character by character.
pub proof fn lemma_encode_joined(left: Seq<char>, right: Seq<char>)
    ensures
        encode_utf8(left + right) == encode_utf8(left) + encode_utf8(right),
    decreases left.len(),
{
    if left.len() == 0 {
        assert(left + right == right);
        assert(encode_utf8(left) + encode_utf8(right) == encode_utf8(right));
    } else {
        lemma_encode_joined(left.drop_first(), right);
        assert((left + right).drop_first() == left.drop_first() + right);
        assert((left + right)[0] == left[0]);
        let first = encode_scalar(left[0] as u32);
        assert(first + (encode_utf8(left.drop_first()) + encode_utf8(right)) == first
            + encode_utf8(left.drop_first()) + encode_utf8(right));
    }
}

/// A path that does not end with a separator and a relative text, joined, are
/// the two with a separator between them.
proof fn lemma_join_text(base: Seq<u8>, text: Seq<char>)
    requires
        base.len() > 0,
        base.last() != SEPARATOR,
        text.len() > 0,
        is_ascii_chars(text),
        text[0] != '/',
    ensures
        joined(base, encode_utf8(text)) == base + seq![SEPARATOR] + encode_utf8(text),
        joined(base, encode_utf8(text)).last() == text.last() as u8,
        encode_utf8(seq!['/'] + text) == seq![SEPARATOR] + encode_utf8(text),
{
    is_ascii_chars_encode_utf8(text);
    let slash = seq!['/'];
    is_ascii_chars_encode_utf8(slash);
    lemma_encode_joined(slash, text);
    assert(encode_utf8(slash)[0] == slash[0] as u8);
    assert(encode_utf8(slash) == seq![SEPARATOR]);
    assert(encode_utf8(text)[0] == text[0] as u8);
    assert(encode_utf8(text).last() == text.last() as u8);
    assert(base.push(SEPARATOR) + encode_utf8(text) == base + seq![SEPARATOR] + encode_utf8(text));
}

/// The root lies two names below a directory whose path does not end with a
/// separator.
proof fn lemma_root_spelled(config_dir: Seq<u8>)
    requires
        config_dir.len() > 0,
        config_dir.last() != SEPARATOR,
    ensures
        root_gitconfig(config_dir) == config_dir + encode_utf8("/generated/root.gitconfig"@),
{
    reveal_strlit("generated");
    reveal_strlit("root.gitconfig");
    reveal_strlit("/generated/root.gitconfig");
    let first = "generated"@;
    let second = "root.gitconfig"@;
    lemma_join_text(config_dir, first);
    lemma_join_text(generated_dir(config_dir), second);
    lemma_encode_joined(seq!['/'] + first, seq!['/'] + second);
    assert("/generated/root.gitconfig"@ == seq!['/'] + first + (seq!['/'] + second));
    assert(config_dir + seq![SEPARATOR] + encode_utf8(first) + seq![SEPARATOR] + encode_utf8(second)
        == config_dir + (seq![SEPARATOR] + encode_utf8(first) + (seq![SEPARATOR] + encode_utf8(
        second,
    ))));
}

/// The managed include leads to the root of the generated tree: it is the
/// path of the root itself, or, where it is derived from the home directory,
/// that path with a `~` in place of the home directory.
pub proof fn law_the_include_leads_to_the_root(xdg: Option<Seq<u8>>, home: Option<Seq<u8>>)
    requires
        layout(xdg, home) is Ok,
    ensures
        match layout(xdg, home) {
            Ok(made) => if xdg is Some {
                encode_utf8(made.include_path) == root_gitconfig(made.config_dir)
            } else {
                &&& made.include_path.take(2) == seq!['~', '/']
                &&& joined(home->0, encode_utf8(made.include_path.skip(2))) == root_gitconfig(
                    made.config_dir,
                )
            },
            Err(_) => false,
        },
{
    let made = layout(xdg, home)->Ok_0;
    reveal_strlit("cloakroom");
    reveal_strlit(".config/cloakroom");
    reveal_strlit("/generated/root.gitconfig");
    reveal_strlit("~/.config/cloakroom/generated/root.gitconfig");
    let tail = "/generated/root.gitconfig"@;
    match xdg {
        Some(base) => {
            let name = "cloakroom"@;
            is_ascii_chars_encode_utf8(name);
            assert(encode_utf8(name)[0] == name[0] as u8);
            assert(encode_utf8(name).last() == name.last() as u8);
            assert(made.config_dir.last() == encode_utf8(name).last());
            lemma_root_spelled(made.config_dir);
            decode_utf8_encode_utf8(made.config_dir);
            lemma_encode_joined(decode_utf8(made.config_dir), tail);
        },
        None => {
            let base = home->0;
            let name = ".config/cloakroom"@;
            is_ascii_chars_encode_utf8(name);
            assert(encode_utf8(name)[0] == name[0] as u8);
            assert(encode_utf8(name).last() == name.last() as u8);
            assert(made.config_dir.last() == encode_utf8(name).last());
            lemma_root_spelled(made.config_dir);
            lemma_encode_joined(name, tail);
            assert(made.include_path.skip(2) == name + tail);
            assert(made.include_path.take(2) == seq!['~', '/']);
            let whole = encode_utf8(name) + encode_utf8(tail);
            assert(whole[0] == encode_utf8(name)[0]);
            assert(base + whole == base + encode_utf8(name) + encode_utf8(tail));
            assert(base.push(SEPARATOR) + whole == base.push(SEPARATOR) + encode_utf8(name)
                + encode_utf8(tail));
        },
    }
}

/// Everything cloakroom owns hangs off its directory: the configuration file
/// and the generated tree directly, the root and the objects below the tree.
pub proof fn law_everything_hangs_off_the_config_dir(config_dir: Seq<u8>, digest: Seq<char>)
    requires
        hexadecimal(digest),
    ensures
        names(config_file(config_dir)) == names(config_dir).push(encode_utf8("config.toml"@)),
        names(generated_dir(config_dir)) == names(config_dir).push(encode_utf8("generated"@)),
        names(root_gitconfig(config_dir)) == names(generated_dir(config_dir)).push(
            encode_utf8("root.gitconfig"@),
        ),
        names(objects_dir(config_dir)) == names(generated_dir(config_dir)).push(
            encode_utf8("objects"@),
        ),
        names(object_gitconfig(config_dir, digest)) == names(objects_dir(config_dir)).push(
            encode_utf8(digest + ".gitconfig"@),
        ),
        rooted(config_file(config_dir)) == rooted(config_dir),
        rooted(root_gitconfig(config_dir)) == rooted(config_dir),
        rooted(objects_dir(config_dir)) == rooted(config_dir),
        rooted(object_gitconfig(config_dir, digest)) == rooted(config_dir),
{
    reveal_strlit("config.toml");
    reveal_strlit("generated");
    reveal_strlit("root.gitconfig");
    reveal_strlit("objects");
    lemma_plain_name("config.toml"@);
    lemma_plain_name("generated"@);
    lemma_plain_name("root.gitconfig"@);
    lemma_plain_name("objects"@);
    lemma_object_name(digest);
    law_joining_adds_one_name(config_dir, encode_utf8("config.toml"@));
    law_joining_adds_one_name(config_dir, encode_utf8("generated"@));
    law_joining_adds_one_name(generated_dir(config_dir), encode_utf8("root.gitconfig"@));
    law_joining_adds_one_name(generated_dir(config_dir), encode_utf8("objects"@));
    law_joining_adds_one_name(objects_dir(config_dir), encode_utf8(digest + ".gitconfig"@));
}

/// The file name of an object is a single name.
pub proof fn lemma_object_name(digest: Seq<char>)
    requires
        hexadecimal(digest),
    ensures
        single_name(encode_utf8(digest + ".gitconfig"@)),
{
    reveal_strlit(".gitconfig");
    let name = digest + ".gitconfig"@;
    assert forall|i: int| 0 <= i < name.len() implies '\0' <= #[trigger] name[i] <= '\u{7f}'
        && name[i] != '/' by {
        if i < digest.len() {
            assert(hex_digit(digest[i]));
        }
    }
    lemma_plain_name(name);
}

/// Where a layout stands: in `cloakroom` below XDG_CONFIG_HOME, where that is
/// an absolute path and the result is text, and in `.config/cloakroom` below
/// the home directory where it is not set or relative. Without either there is
/// none.
pub proof fn law_where_layouts_stand(xdg: Option<Seq<u8>>, home: Option<Seq<u8>>)
    ensures
        ({
            let made = layout(absolute_only(xdg), home);
            if xdg is Some && (xdg->0).len() > 0 && (xdg->0)[0] == 47 {
                let directory = joined(xdg->0, encode_utf8("cloakroom"@));
                match made {
                    Ok(made) => valid_utf8(directory) && made.config_dir == directory
                        && made.include_path == decode_utf8(directory)
                        + "/generated/root.gitconfig"@,
                    Err(message) => !valid_utf8(directory) && message
                        == "XDG_CONFIG_HOME is not valid UTF-8"@,
                }
            } else if home is Some {
                made == Ok::<LayoutView, Seq<char>>(
                    LayoutView {
                        config_dir: joined(home->0, encode_utf8(".config/cloakroom"@)),
                        include_path: "~/.config/cloakroom/generated/root.gitconfig"@,
                    },
                )
            } else {
                made == Err::<LayoutView, Seq<char>>("cannot determine the home directory"@)
            }
        }),
        xdg matches Some(base) ==> ({
            let directory = joined(base, encode_utf8("cloakroom"@));
            match layout(xdg, home) {
                Ok(made) => valid_utf8(directory) && made.config_dir == directory
                    && made.include_path == decode_utf8(directory) + "/generated/root.gitconfig"@,
                Err(message) => !valid_utf8(directory) && message
                    == "XDG_CONFIG_HOME is not valid UTF-8"@,
            }
        }),
{
}

}
