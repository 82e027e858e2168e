use yall::options::Halt;
use yall::options::Options;
use yall::options::OptionsBuilder;

fn args(args: &[&str]) -> Vec<String> {
    args.iter().map(|arg| arg.to_string()).collect()
}

#[test]
fn from_args() {
    assert_eq!(
        Options::from_iter(&args(&["./howdy.yall"])),
        Ok(Options { debug_parser: false, input: "./howdy.yall".to_string() })
    );

    assert_eq!(
        Options::from_iter(&args(&["./main.yall", "-p"])),
        Ok(Options { debug_parser: true, input: "./main.yall".to_string() })
    );
}

#[test]
fn debug_flag_spellings() {
    for flag in ["-p", "-debug-parser", "--debug-parser"] {
        assert_eq!(
            Options::from_iter(&args(&[flag, "a.yall"])),
            Ok(Options { debug_parser: true, input: "a.yall".to_string() })
        );
    }
}

#[test]
fn version_flag_spellings() {
    for flag in ["-v", "-V", "--version"] {
        assert_eq!(Options::from_iter(&args(&["a.yall", flag])), Err(Halt::Version));
        assert_eq!(Options::from_iter(&args(&[flag])), Err(Halt::Version));
    }
}

#[test]
fn unrecognized_flag() {
    assert_eq!(
        Options::from_iter(&args(&["a.yall", "--what", "-v"])),
        Err(Halt::Unrecognized("--what".to_string()))
    );
    assert_eq!(
        Options::from_iter(&args(&["-v", "--what"])),
        Err(Halt::Version)
    );
    assert_eq!(
        Options::from_iter(&args(&["-P"])),
        Err(Halt::Unrecognized("-P".to_string()))
    );
    assert_eq!(
        Options::from_iter(&args(&["-é"])),
        Err(Halt::Unrecognized("-é".to_string()))
    );
}

#[test]
fn no_input() {
    assert_eq!(Options::from_iter(&args(&[])), Err(Halt::NoInput));
    assert_eq!(Options::from_iter(&args(&["-p"])), Err(Halt::NoInput));
}

#[test]
fn last_input_wins() {
    assert_eq!(
        Options::from_iter(&args(&["a.yall", "-p", "b.yall"])),
        Ok(Options { debug_parser: true, input: "b.yall".to_string() })
    );
}

#[test]
fn short_arguments_are_inputs() {
    assert_eq!(
        Options::from_iter(&args(&["-"])),
        Ok(Options { debug_parser: false, input: "-".to_string() })
    );
    assert_eq!(
        Options::from_iter(&args(&[""])),
        Ok(Options { debug_parser: false, input: String::new() })
    );
}

#[test]
fn options_from_builder() {
    let builder = OptionsBuilder { debug_parser: true, input: Some("x.yall".to_string()) };
    assert_eq!(
        Options::from(builder),
        Options { debug_parser: true, input: "x.yall".to_string() }
    );
    assert_eq!(OptionsBuilder::new(), OptionsBuilder { debug_parser: false, input: None });
}
