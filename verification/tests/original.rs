use compdb::extract::extract_commands_from_lines;
use compdb::tokenize::split_command_to_arguments;

#[test]
fn test_extract_commands_from_reader() {
    let texts = r#"
command = /bin/bash -c "PWD=/proc/self/cwd vendor/qcom/proprietary/llvm-arm-toolchain-ship/14/bin/clang -I system/media/audio/include"
 command = /bin/bash -c "PWD=/proc/self/cwd vendor/qcom/proprietary/llvm-arm-toolchain-ship/14/bin/clang++ -I system/media/audio/include"
command = /bin/bash -c "PWD=/proc/self/cwd some other text"
command = /bin/bash -c "some other command"
random text that should be ignored
"#;
    let dest = vec![
        "vendor/qcom/proprietary/llvm-arm-toolchain-ship/14/bin/clang -I system/media/audio/include".to_string(),
        "vendor/qcom/proprietary/llvm-arm-toolchain-ship/14/bin/clang++ -I system/media/audio/include".to_string(),
    ];
    let lines: Vec<String> = texts.lines().map(|l| l.to_string()).collect();
    let commands = extract_commands_from_lines(&lines);
    assert_eq!(commands, dest);
}

#[test]
fn test_split_command_to_arguments() {
    let text = "vendor/qcom/proprietary/llvm-arm-toolchain-ship/14/bin/clang -I system/media/audio/include";

    assert_eq!(
        split_command_to_arguments(text).unwrap(),
        vec![
            "vendor/qcom/proprietary/llvm-arm-toolchain-ship/14/bin/clang".to_string(),
            "-I".to_string(),
            "system/media/audio/include".to_string(),
        ]
    );
}
