use vstd::prelude::*;

verus! {

/// Whether an argument is the flag that announces the storage directory.
pub open spec fn is_flag(argument: Seq<char>) -> bool {
    argument == "--directory"@
}

/// Whether the argument at position `at` names the storage directory: it
/// follows the flag directly and is not the flag itself.
pub open spec fn names_directory(arguments: Seq<String>, at: int) -> bool {
    &&& 1 <= at < arguments.len()
    &&& is_flag(arguments[at - 1]@)
    &&& !is_flag(arguments[at]@)
}

/// The first argument at or after position `at` that names the storage
/// directory; the empty path where there is none.
pub open spec fn directory_from(arguments: Seq<String>, at: int) -> Seq<char>
    decreases arguments.len() - at,
{
    if at < 1 || at >= arguments.len() {
        Seq::empty()
    } else if names_directory(arguments, at) {
        arguments[at]@
    } else {
        directory_from(arguments, at + 1)
    }
}

/// The storage directory that the arguments of the process name.
pub open spec fn directory_of(arguments: Seq<String>) -> Seq<char> {
    directory_from(arguments, 1)
}

/// `directory_from` gives the first argument from `at` on that names the
/// directory, and the empty path exactly where none does.
pub proof fn lemma_directory_from(arguments: Seq<String>, at: int)
    requires
        1 <= at,
    ensures
        (forall|j: int| at <= j ==> !names_directory(arguments, j)) ==> directory_from(
            arguments,
            at,
        ) == Seq::<char>::empty(),
        forall|k: int|
            at <= k && names_directory(arguments, k) && (forall|j: int|
                at <= j < k ==> !names_directory(arguments, j)) ==> directory_from(arguments, at)
                == arguments[k]@,
    decreases arguments.len() - at,
{
    if at < arguments.len() && !names_directory(arguments, at) {
        lemma_directory_from(arguments, at + 1);
        assert forall|k: int|
            at <= k && names_directory(arguments, k) && (forall|j: int|
                at <= j < k ==> !names_directory(arguments, j)) implies directory_from(
            arguments,
            at,
        ) == arguments[k]@ by {
            assert(k != at);
            assert(forall|j: int| at + 1 <= j < k ==> !names_directory(arguments, j));
        }
    }
}

/// What the server is started with: the directory that holds the files it
/// serves. It is made once and never changed.
#[derive(Debug)]
pub struct ServerConfig {
    storage_directory: String,
}

impl View for ServerConfig {
    type V = Seq<char>;

    closed spec fn view(&self) -> Seq<char> {
        self.storage_directory@
    }
}

impl ServerConfig {
    /// A configuration with this storage directory.
    pub fn new(storage_directory: String) -> (config: ServerConfig)
        ensures
            config@ == storage_directory@,
    {
        ServerConfig { storage_directory }
    }

    /// The configuration that the arguments of the process give: the storage
    /// directory is the first argument that follows `--directory`, and the empty
    /// path, which stands for the working directory, where there is none.
    pub fn from_args(arguments: &Vec<String>) -> (config: ServerConfig)
        ensures
            config@ == directory_of(arguments@),
    {
        let flag: String = "--directory".to_owned();
        let mut at: usize = 1;
        while at < arguments.len()
            invariant
                1 <= at,
                flag@ == "--directory"@,
                directory_of(arguments@) == directory_from(arguments@, at as int),
            decreases arguments@.len() - at,
        {
            if arguments[at - 1] == flag && arguments[at] != flag {
                return ServerConfig { storage_directory: arguments[at].clone() };
            }
            at = at + 1;
        }
        ServerConfig { storage_directory: String::new() }
    }

    /// The storage directory.
    pub fn storage_directory(&self) -> (directory: &String)
        ensures
            directory@ == self@,
    {
        &self.storage_directory
    }
}

} // verus!
