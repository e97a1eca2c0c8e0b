use cargo_mend::driver::PassthroughError;
use cargo_mend::driver::PassthroughInvocation;

fn wrapper_args() -> Vec<String> {
    vec![
        String::from("/target/debug/cargo-mend"),
        String::from("/toolchain/bin/rustc"),
        String::from("-vV"),
    ]
}

#[test]
fn passthrough_invocation_uses_rustc_without_existing_wrapper() {
    let invocation = PassthroughInvocation::new(wrapper_args(), None);

    assert_eq!(
        invocation,
        Ok(PassthroughInvocation {
            program: String::from("/toolchain/bin/rustc"),
            args:    vec![String::from("-vV")],
        })
    );
}

#[test]
fn passthrough_invocation_chains_existing_wrapper_before_rustc() {
    let invocation = PassthroughInvocation::new(wrapper_args(), Some(String::from("/cache/kache")));

    assert_eq!(
        invocation,
        Ok(PassthroughInvocation {
            program: String::from("/cache/kache"),
            args:    vec![String::from("/toolchain/bin/rustc"), String::from("-vV")],
        })
    );
}

#[test]
fn wrapper_arguments_without_rustc_have_no_passthrough() {
    assert_eq!(
        PassthroughInvocation::new(vec![String::from("/target/debug/cargo-mend")], None),
        Err(PassthroughError::MissingRustcPath)
    );
    assert_eq!(
        PassthroughInvocation::<String>::new(Vec::new(), Some(String::from("/cache/kache"))),
        Err(PassthroughError::MissingRustcPath)
    );
    assert_eq!(
        PassthroughError::MissingRustcPath.message(),
        "compiler driver expected rustc path in wrapper arguments"
    );
}
