//! Configuration parsing: the prompt setting and the startup commands
//! read from the configuration file's text. Reading and writing the file
//! itself is the caller's work.

use vstd::prelude::*;

use crate::chars::{
    charss_view, chars_eq, chars_to_string, split_once_at, split_once_chars, str_to_chars, subvec,
    trim_char, trim_char_spec, trim_chars, trim_spec,
};
use crate::commands::split_on;

verus! {

/// The loaded configuration: the prompt, and the commands run at startup.
pub struct Config {
    pub prompt: String,
    pub startup: Vec<String>,
}

impl core::default::Default for Config {
    /// The configuration used when no file can be read.
    fn default() -> (r: Config)
        ensures
            r.prompt@ == "shesh> "@,
            r.startup.deep_view() == Seq::<Seq<char>>::empty(),
    {
        let r = Config { prompt: String::from_str("shesh> "), startup: Vec::new() };
        assert(r.startup.deep_view() =~= Seq::<Seq<char>>::empty());
        r
    }
}

/// The parser's state: the prompt so far, the startup lines so far, and
/// whether the `#startup` marker has been seen.
#[verifier::ext_equal]
pub ghost struct ConfigSt {
    pub prompt: Seq<char>,
    pub startup: Seq<Seq<char>>,
    pub in_startup: bool,
}

/// Whether a comment body reads `startup`, ignoring ASCII case.
pub open spec fn is_startup_marker(s: Seq<char>) -> bool {
    s.len() == 7 && (s[0] == 's' || s[0] == 'S') && (s[1] == 't' || s[1] == 'T') && (s[2] == 'a'
        || s[2] == 'A') && (s[3] == 'r' || s[3] == 'R') && (s[4] == 't' || s[4] == 'T') && (s[5]
        == 'u' || s[5] == 'U') && (s[6] == 'p' || s[6] == 'P')
}

/// One configuration line: empties are skipped; a `#` comment may switch
/// to startup mode; after the marker every line is a startup command;
/// before it, `prompt = "..."` sets the prompt.
pub open spec fn config_step(st: ConfigSt, line: Seq<char>) -> ConfigSt {
    let t = trim_spec(line);
    if t.len() == 0 {
        st
    } else if t[0] == '#' {
        if is_startup_marker(trim_spec(t.drop_first())) {
            ConfigSt { in_startup: true, ..st }
        } else {
            st
        }
    } else if st.in_startup {
        ConfigSt { startup: st.startup.push(t), ..st }
    } else {
        match split_once_at(t, '=') {
            Some(p) => {
                if trim_spec(p.0) == "prompt"@ {
                    ConfigSt { prompt: trim_char_spec(trim_spec(p.1), '"'), ..st }
                } else {
                    st
                }
            },
            None => st,
        }
    }
}

pub open spec fn config_run(lines: Seq<Seq<char>>) -> ConfigSt
    decreases lines.len(),
{
    if lines.len() == 0 {
        ConfigSt { prompt: "shesh> "@, startup: Seq::empty(), in_startup: false }
    } else {
        config_step(config_run(lines.drop_last()), lines.last())
    }
}

/// The configuration described by the file's text, read line by line.
pub open spec fn config_spec(content: Seq<char>) -> ConfigSt {
    config_run(split_on(content, '\n'))
}

/// Executable test for [`is_startup_marker`].
fn is_startup_marker_exec(s: &Vec<char>) -> (r: bool)
    ensures
        r == is_startup_marker(s@),
{
    s.len() == 7 && (s[0] == 's' || s[0] == 'S') && (s[1] == 't' || s[1] == 'T') && (s[2] == 'a'
        || s[2] == 'A') && (s[3] == 'r' || s[3] == 'R') && (s[4] == 't' || s[4] == 'T') && (s[5]
        == 'u' || s[5] == 'U') && (s[6] == 'p' || s[6] == 'P')
}

/// Parses the configuration file's text.
pub fn parse_config(content: &str) -> (r: Config)
    ensures
        r.prompt@ == config_spec(content@).prompt,
        r.startup.deep_view() == config_spec(content@).startup,
{
    let cs = str_to_chars(content);
    let lines = crate::commands::split_on_char(&cs, '\n');
    let ghost lv = split_on(content@, '\n');
    let mut prompt = String::from_str("shesh> ");
    let mut startup: Vec<String> = Vec::new();
    let mut in_startup: bool = false;
    let pk = str_to_chars("prompt");
    let mut i: usize = 0;
    assert(startup.deep_view() =~= Seq::<Seq<char>>::empty());
    assert(lv.subrange(0, 0) =~= Seq::<Seq<char>>::empty());
    while i < lines.len()
        invariant
            i <= lines@.len(),
            charss_view(lines@) == lv,
            pk@ == "prompt"@,
            config_run(lv.subrange(0, i as int)) == (ConfigSt {
                prompt: prompt@,
                startup: startup.deep_view(),
                in_startup,
            }),
        decreases lines@.len() - i,
    {
        let ghost pre = lv.subrange(0, i as int);
        let ghost st_pre = config_run(pre);
        let t = trim_chars(&lines[i]);
        if t.len() == 0 {
            // skipped
        } else if t[0] == '#' {
            let rest = trim_chars(&subvec(&t, 1, t.len()));
            assert(t@.subrange(1, t@.len() as int) =~= t@.drop_first());
            if is_startup_marker_exec(&rest) {
                in_startup = true;
            }
        } else if in_startup {
            let ghost spre = startup.deep_view();
            startup.push(chars_to_string(&t));
            proof {
                assert(startup.deep_view().len() == spre.len() + 1);
                assert(startup.deep_view() =~= spre.push(t@));
            }
        } else {
            match split_once_chars(&t, '=') {
                Some(p) => {
                    let key = trim_chars(&p.0);
                    if chars_eq(&key, &pk) {
                        let vt = trim_chars(&p.1);
                        let vq = trim_char(&vt, '"');
                        prompt = chars_to_string(&vq);
                    }
                },
                None => {},
            }
        }
        i = i + 1;
        proof {
            let cur = lv.subrange(0, i as int);
            assert(cur.drop_last() =~= pre);
            assert(cur.last() == lv[i - 1]);
            assert(lv[i - 1] == lines@[i - 1]@);
            assert(config_run(cur) =~= (ConfigSt {
                prompt: prompt@,
                startup: startup.deep_view(),
                in_startup,
            }));
        }
    }
    assert(lv.subrange(0, lv.len() as int) =~= lv);
    Config { prompt, startup }
}

/// The configuration from the file's text when it could be read, the
/// default otherwise.
pub fn init(content: &Option<String>) -> (r: Config)
    ensures
        match content {
            Some(s) => r.prompt@ == config_spec(s@).prompt && r.startup.deep_view() == config_spec(
                s@,
            ).startup,
            None => r.prompt@ == "shesh> "@ && r.startup.deep_view() == Seq::<Seq<char>>::empty(),
        },
{
    match content {
        Some(s) => parse_config(s.as_str()),
        None => Config::default(),
    }
}

/// The configuration file's path under the given home directory.
pub fn get_config_path(home: &str) -> (r: String)
    ensures
        r@ == home@ + "/.config/shesh/shesh.24"@,
{
    let mut r = home.to_owned();
    r.append("/.config/shesh/shesh.24");
    r
}

} // verus!
