use vstd::prelude::*;

verus! {

/// What the compiler is asked to do: the source file to compile.
pub struct Config {
    pub filename: String,
}

impl Config {
    /// The configuration from the program's arguments, the program's own name
    /// first: the argument after it names the source file.
    pub fn new(args: Vec<String>) -> (r: Result<Config, &'static str>)
        ensures
            r is Ok <==> args.len() >= 2,
            r matches Ok(c) ==> c.filename@ == args[1]@,
    {
        if args.len() < 2 {
            return Err("No file path provided");
        }
        Ok(Config { filename: args[1].clone() })
    }
}

} // verus!
