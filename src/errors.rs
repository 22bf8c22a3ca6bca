use vstd::prelude::*;

verus! {

/// What to tell a user whose program has no `main` function.
pub open spec fn missing_main_text() -> Seq<char> {
    "Main function not found, please create one\nHeres a basic main function with code that prints hello world:\n\ninclude \"std.mcl\"\n\nfn main with void returns void then\n    \"Hello world!\\n\" puts\ndone\n"@
}

/// The message for a program without a `main` function, with an example.
pub fn missing_main_fn() -> (r: String)
    ensures
        r@ == missing_main_text(),
{
    String::from_str(
        "Main function not found, please create one\nHeres a basic main function with code that prints hello world:\n\ninclude \"std.mcl\"\n\nfn main with void returns void then\n    \"Hello world!\\n\" puts\ndone\n",
    )
}

} // verus!
