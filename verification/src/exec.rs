//! The environment handed to a traced `exec`: entries are `(name, value)`,
//! the value `None` for an environ entry without `=`.
use vstd::prelude::*;
use vstd::slice::*;

verus! {

/// The error number `EINVAL`, which an `exec` whose environment cannot
/// be prepared fails with.
pub const EINVAL: i32 = 22;
/// `:`, the separator of the loader's path lists.
pub const COLON: u8 = 0x3a;

/// One environment entry.
pub type EnvEntry = (Vec<u8>, Option<Vec<u8>>);

/// An optional value as plain bytes.
pub open spec fn value_view(value: Option<Vec<u8>>) -> Option<Seq<u8>> {
    match value {
        Some(v) => Some(v@),
        None => None,
    }
}

/// The environment as plain values.
pub open spec fn env_view(envs: Seq<EnvEntry>) -> Seq<(Seq<u8>, Option<Seq<u8>>)> {
    envs.map_values(|entry: EnvEntry| (entry.0@, value_view(entry.1)))
}

/// The first entry from `from` on named `name`.
pub open spec fn first_named(envs: Seq<(Seq<u8>, Option<Seq<u8>>)>, name: Seq<u8>, from: int) -> Option<int>
    decreases envs.len() - from,
{
    if from < 0 || from >= envs.len() {
        None
    } else if envs[from].0 == name {
        Some(from)
    } else {
        first_named(envs, name, from + 1)
    }
}

/// The value of the first entry from `from` on named `name` that has one.
pub open spec fn first_value(envs: Seq<(Seq<u8>, Option<Seq<u8>>)>, name: Seq<u8>, from: int) -> Option<Seq<u8>>
    decreases envs.len() - from,
{
    if from < 0 || from >= envs.len() {
        None
    } else if envs[from].0 == name && envs[from].1 is Some {
        envs[from].1
    } else {
        first_value(envs, name, from + 1)
    }
}

/// What `ensure_env` makes of `envs`: `Err(EINVAL)` when `name` is set to
/// another value, `envs` itself when it is set to `value`, and `envs` with
/// `name=value` appended when it is not set.
pub open spec fn spec_ensure_env(envs: Seq<(Seq<u8>, Option<Seq<u8>>)>, name: Seq<u8>, value: Seq<u8>) -> Result<
    Seq<(Seq<u8>, Option<Seq<u8>>)>,
    i32,
> {
    match first_value(envs, name, 0) {
        Some(existing) => if existing == value {
            Ok(envs)
        } else {
            Err(EINVAL)
        },
        None => Ok(envs.push((name, Some(value)))),
    }
}

/// Whether `a` equals `b`.
pub(crate) fn bytes_equal(a: &[u8], b: &[u8]) -> (equal: bool)
    ensures
        equal == (a@ == b@),
{
    if a.len() != b.len() {
        return false;
    }
    let mut i: usize = 0;
    while i < a.len()
        invariant
            a@.len() == b@.len(),
            0 <= i <= a@.len(),
            forall|k: int| 0 <= k < i ==> a@[k] == b@[k],
        decreases a@.len() - i,
    {
        if a[i] != b[i] {
            return false;
        }
        i = i + 1;
    }
    assert(a@ =~= b@);
    true
}

/// Ensures `name` is set to `value`: adds it when absent, leaves it when
/// set to `value`, and fails with `EINVAL` when set to anything else.
pub fn ensure_env(envs: &mut Vec<EnvEntry>, name: &[u8], value: &[u8]) -> (result: Result<(), i32>)
    ensures
        match spec_ensure_env(env_view(old(envs)@), name@, value@) {
            Ok(new_envs) => result is Ok && env_view(final(envs)@) == new_envs,
            Err(error) => result == Err::<(), i32>(error) && final(envs)@ == old(envs)@,
        },
{
    let ghost view = env_view(envs@);
    let mut i: usize = 0;
    while i < envs.len()
        invariant
            view == env_view(envs@),
            0 <= i <= envs@.len(),
            first_value(view, name@, 0) == first_value(view, name@, i as int),
        decreases envs@.len() - i,
    {
        if bytes_equal(envs[i].0.as_slice(), name) {
            match &envs[i].1 {
                Some(existing) => {
                    if bytes_equal(existing.as_slice(), value) {
                        return Ok(());
                    } else {
                        return Err(EINVAL);
                    }
                },
                None => {},
            }
        }
        i = i + 1;
    }
    envs.push((slice_to_vec(name), Some(slice_to_vec(value))));
    assert(env_view(envs@) =~= view.push((name@, Some(value@))));
    Ok(())
}

/// Whether `value` already is the last colon-separated entry of the list
/// `existing`.
pub open spec fn ends_with_entry(existing: Seq<u8>, value: Seq<u8>) -> bool {
    ||| existing == value
    ||| (existing.len() > value.len() && existing.subrange(existing.len() - value.len(), existing.len() as int)
        == value && existing[existing.len() - value.len() - 1] == COLON)
}

/// The list `existing` with `value` appended as its last entry; no leading
/// `:` when `existing` is empty, which the loader would read as the
/// current directory.
pub open spec fn appended_entry(existing: Seq<u8>, value: Seq<u8>) -> Seq<u8> {
    if existing.len() == 0 {
        value
    } else {
        existing + seq![COLON] + value
    }
}

/// What `append_path_env` makes of `envs`.
pub open spec fn spec_append_path_env(envs: Seq<(Seq<u8>, Option<Seq<u8>>)>, name: Seq<u8>, value: Seq<u8>) -> Seq<
    (Seq<u8>, Option<Seq<u8>>),
> {
    match first_named(envs, name, 0) {
        None => envs.push((name, Some(value))),
        Some(i) => {
            let existing = match envs[i].1 {
                Some(v) => v,
                None => Seq::empty(),
            };
            if ends_with_entry(existing, value) {
                envs
            } else {
                envs.update(i, (envs[i].0, Some(appended_entry(existing, value))))
            }
        },
    }
}

/// Whether `value` ends `text` right after a colon.
fn ends_with_colon_entry(text: &[u8], value: &[u8]) -> (found: bool)
    ensures
        found == (text@.len() > value@.len() && text@.subrange(text@.len() - value@.len(), text@.len() as int)
            == value@ && text@[text@.len() - value@.len() - 1] == COLON),
{
    if text.len() <= value.len() {
        return false;
    }
    let start: usize = text.len() - value.len();
    let tail = slice_subrange(text, start, text.len());
    bytes_equal(tail, value) && text[start - 1] == COLON
}

/// Makes `value` the last colon-separated entry of the list in `name`
/// (`LD_PRELOAD`, `DYLD_INSERT_LIBRARIES`): adds `name=value` when absent,
/// leaves the list when `value` already ends it, and appends `:value`
/// otherwise, so a user's own preloads stay and come first.
pub fn append_path_env(envs: &mut Vec<EnvEntry>, name: &[u8], value: &[u8])
    ensures
        env_view(final(envs)@) == spec_append_path_env(env_view(old(envs)@), name@, value@),
{
    let ghost view = env_view(envs@);
    let mut i: usize = 0;
    while i < envs.len()
        invariant
            view == env_view(envs@),
            envs@ == old(envs)@,
            0 <= i <= envs@.len(),
            first_named(view, name@, 0) == first_named(view, name@, i as int),
        decreases envs@.len() - i,
    {
        if bytes_equal(envs[i].0.as_slice(), name) {
            let empty: Vec<u8> = Vec::new();
            let existing: &[u8] = match &envs[i].1 {
                Some(v) => v.as_slice(),
                None => empty.as_slice(),
            };
            assert(existing@ == match view[i as int].1 {
                Some(v) => v,
                None => Seq::<u8>::empty(),
            });
            if bytes_equal(existing, value) || ends_with_colon_entry(existing, value) {
                return;
            }
            let mut new_value: Vec<u8> = Vec::new();
            if existing.len() != 0 {
                new_value = slice_to_vec(existing);
                new_value.push(COLON);
            }
            let mut tail = slice_to_vec(value);
            new_value.append(&mut tail);
            let entry_name = slice_to_vec(envs[i].0.as_slice());
            let ghost expected = appended_entry(existing@, value@);
            assert(new_value@ =~= expected);
            envs.set(i, (entry_name, Some(new_value)));
            assert(env_view(envs@) =~= view.update(i as int, (view[i as int].0, Some(expected))));
            return;
        }
        i = i + 1;
    }
    envs.push((slice_to_vec(name), Some(slice_to_vec(value))));
    assert(env_view(envs@) =~= view.push((name@, Some(value@))));
}

/// A program about to be executed.
#[derive(Debug)]
pub struct Exec {
    pub program: Vec<u8>,
    pub args: Vec<Vec<u8>>,
    pub envs: Vec<EnvEntry>,
}

/// A list of byte strings as plain values.
pub open spec fn strings_view(strings: Seq<Vec<u8>>) -> Seq<Seq<u8>> {
    strings.map_values(|string: Vec<u8>| string@)
}

/// Copies a list of byte strings.
fn copy_strings(strings: &[Vec<u8>], from: usize) -> (copy: Vec<Vec<u8>>)
    requires
        from <= strings@.len(),
    ensures
        strings_view(copy@) == strings_view(strings@).subrange(from as int, strings@.len() as int),
{
    let mut copy: Vec<Vec<u8>> = Vec::new();
    let mut i: usize = from;
    while i < strings.len()
        invariant
            from <= i <= strings@.len(),
            strings_view(copy@) == strings_view(strings@).subrange(from as int, i as int),
        decreases strings@.len() - i,
    {
        let ghost before = copy@;
        let item = slice_to_vec(strings[i].as_slice());
        copy.push(item);
        assert(strings_view(copy@) =~= strings_view(before).push(strings@[i as int]@));
        assert(strings_view(copy@) =~= strings_view(strings@).subrange(from as int, i + 1));
        i = i + 1;
    }
    copy
}

impl Exec {
    /// Runs the script through the interpreter its shebang names: the
    /// interpreter becomes the program and `argv[0]`, followed by the
    /// shebang's own arguments and the script's path, then the original
    /// arguments after `argv[0]`.
    pub fn apply_shebang(&mut self, interpreter: &[u8], arguments: &[Vec<u8>])
        requires
            old(self).args@.len() >= 1,
        ensures
            final(self).program@ == interpreter@,
            strings_view(final(self).args@) == seq![interpreter@] + strings_view(arguments@) + seq![
                old(self).program@,
            ] + strings_view(old(self).args@).subrange(1, old(self).args@.len() as int),
            final(self).envs@ == old(self).envs@,
    {
        let mut args: Vec<Vec<u8>> = Vec::new();
        args.push(slice_to_vec(interpreter));
        let mut shebang_args = copy_strings(arguments, 0);
        args.append(&mut shebang_args);
        args.push(slice_to_vec(self.program.as_slice()));
        let mut rest = copy_strings(self.args.as_slice(), 1);
        args.append(&mut rest);
        assert(strings_view(arguments@).subrange(0, arguments@.len() as int) =~= strings_view(arguments@));
        assert(strings_view(args@) =~= seq![interpreter@] + strings_view(arguments@) + seq![self.program@]
            + strings_view(self.args@).subrange(1, self.args@.len() as int));
        self.program = slice_to_vec(interpreter);
        self.args = args;
    }
}

/// Renaming no entry keeps where the first entry of a name is.
proof fn lemma_first_named_update(envs: Seq<(Seq<u8>, Option<Seq<u8>>)>, name: Seq<u8>, from: int, i: int, value: Option<Seq<u8>>)
    requires
        0 <= i < envs.len(),
        0 <= from,
    ensures
        first_named(envs.update(i, (envs[i].0, value)), name, from) == first_named(envs, name, from),
    decreases envs.len() - from,
{
    if from < envs.len() {
        lemma_first_named_update(envs, name, from + 1, i, value);
    }
}

/// A name first set by an appended entry is found there.
proof fn lemma_first_named_push(envs: Seq<(Seq<u8>, Option<Seq<u8>>)>, name: Seq<u8>, from: int, value: Option<Seq<u8>>)
    requires
        0 <= from <= envs.len(),
        first_named(envs, name, from) is None,
    ensures
        first_named(envs.push((name, value)), name, from) == Some(envs.len() as int),
    decreases envs.len() - from,
{
    if from < envs.len() {
        lemma_first_named_push(envs, name, from + 1, value);
    }
}

/// The search path musl's `execvp` falls back to when `PATH` is unset.
pub open spec fn default_search_path() -> Seq<u8> {
    // "/usr/local/bin:/bin:/usr/bin"
    seq![
        0x2fu8, 0x75u8, 0x73u8, 0x72u8, 0x2fu8, 0x6cu8, 0x6fu8, 0x63u8, 0x61u8, 0x6cu8, 0x2fu8, 0x62u8,
        0x69u8, 0x6eu8, 0x3au8, 0x2fu8, 0x62u8, 0x69u8, 0x6eu8, 0x3au8, 0x2fu8, 0x75u8, 0x73u8, 0x72u8,
        0x2fu8, 0x62u8, 0x69u8, 0x6eu8,
    ]
}

/// The list of directories a program without `/` is searched in: the
/// caller's own search path (as `execvP` takes one), else `PATH`, else
/// musl's default.
pub fn exec_search_path(custom_path: Option<&[u8]>, path_env: Option<&[u8]>) -> (path: Vec<u8>)
    ensures
        path@ == match custom_path {
            Some(custom) => custom@,
            None => match path_env {
                Some(env) => env@,
                None => default_search_path(),
            },
        },
{
    match custom_path {
        Some(custom) => slice_to_vec(custom),
        None => match path_env {
            Some(env) => slice_to_vec(env),
            None => {
                let path: Vec<u8> = vec![
                    0x2fu8, 0x75u8, 0x73u8, 0x72u8, 0x2fu8, 0x6cu8, 0x6fu8, 0x63u8, 0x61u8, 0x6cu8, 0x2fu8, 0x62u8,
                    0x69u8, 0x6eu8, 0x3au8, 0x2fu8, 0x62u8, 0x69u8, 0x6eu8, 0x3au8, 0x2fu8, 0x75u8, 0x73u8, 0x72u8,
                    0x2fu8, 0x62u8, 0x69u8, 0x6eu8,
                ];
                assert(path@ == default_search_path());
                path
            },
        },
    }
}

/// After `append_path_env`, `value` is the last entry of the list in the
/// first entry named `name`. An empty `value` is the one exception: it
/// leaves an entry that has no value without one.
pub proof fn lemma_append_path_env_ends_with_value(envs: Seq<(Seq<u8>, Option<Seq<u8>>)>, name: Seq<u8>, value: Seq<u8>)
    requires
        value.len() > 0 || (first_named(envs, name, 0) matches Some(i) ==> envs[i].1 is Some),
    ensures
        ({
            let result = spec_append_path_env(envs, name, value);
            match first_named(result, name, 0) {
                Some(i) => result[i].1 matches Some(list) && ends_with_entry(list, value),
                None => false,
            }
        }),
{
    match first_named(envs, name, 0) {
        None => {
            lemma_first_named_push(envs, name, 0, Some(value));
        },
        Some(i) => {
            lemma_first_named_bounds(envs, name, 0);
            let existing = match envs[i].1 {
                Some(v) => v,
                None => Seq::empty(),
            };
            if !ends_with_entry(existing, value) {
                lemma_first_named_update(envs, name, 0, i, Some(appended_entry(existing, value)));
                lemma_appended_ends_with(existing, value);
            }
        },
    }
}

/// The first entry of a name is an entry of the list.
proof fn lemma_first_named_bounds(envs: Seq<(Seq<u8>, Option<Seq<u8>>)>, name: Seq<u8>, from: int)
    ensures
        first_named(envs, name, from) matches Some(i) ==> 0 <= from <= i < envs.len() && envs[i].0 == name,
    decreases envs.len() - from,
{
    if 0 <= from < envs.len() {
        lemma_first_named_bounds(envs, name, from + 1);
    }
}

/// Appending `value` to a list makes it its last entry.
proof fn lemma_appended_ends_with(existing: Seq<u8>, value: Seq<u8>)
    ensures
        ends_with_entry(appended_entry(existing, value), value),
{
    if existing.len() != 0 {
        let list = existing + seq![COLON] + value;
        assert(list.subrange(list.len() - value.len(), list.len() as int) =~= value);
        assert(list[list.len() - value.len() - 1] == COLON);
    }
}

/// `append_path_env` touches one entry at most: the first entry named
/// `name`, or a new `name=value` entry at the end when there is none. The
/// list grows by one entry at most and every other entry stays as it was.
pub proof fn lemma_append_path_env_changes_one_entry(envs: Seq<(Seq<u8>, Option<Seq<u8>>)>, name: Seq<u8>, value: Seq<u8>)
    ensures
        ({
            let result = spec_append_path_env(envs, name, value);
            &&& envs.len() <= result.len() <= envs.len() + 1
            &&& forall|j: int|
                0 <= j < envs.len() && first_named(envs, name, 0) != Some(j) ==> #[trigger] result[j] == envs[j]
            &&& result.len() == envs.len() + 1 ==> first_named(envs, name, 0) is None && result.last() == (
                name,
                Some(value),
            )
        }),
{
    lemma_first_named_bounds(envs, name, 0);
}

/// Appending the same entry twice changes nothing the second time.
pub proof fn lemma_append_path_env_idempotent(envs: Seq<(Seq<u8>, Option<Seq<u8>>)>, name: Seq<u8>, value: Seq<u8>)
    ensures
        spec_append_path_env(spec_append_path_env(envs, name, value), name, value) == spec_append_path_env(
            envs,
            name,
            value,
        ),
{
    match first_named(envs, name, 0) {
        None => {
            lemma_first_named_push(envs, name, 0, Some(value));
        },
        Some(i) => {
            lemma_first_named_bounds(envs, name, 0);
            let existing = match envs[i].1 {
                Some(v) => v,
                None => Seq::empty(),
            };
            if !ends_with_entry(existing, value) {
                lemma_first_named_update(envs, name, 0, i, Some(appended_entry(existing, value)));
                lemma_appended_ends_with(existing, value);
            }
        },
    }
}

} // verus!
