use image_tasks::command::{Command, CommandArgs};
use image_tasks::TaskError;

fn args_for(command: Command, images: Vec<&str>, output: Option<&str>) -> CommandArgs {
    CommandArgs {
        command,
        parallel_images: 1,
        images: images.into_iter().map(String::from).collect(),
        output: output.map(String::from),
    }
}

fn rejection(r: Result<(), TaskError>) -> String {
    match r {
        Err(TaskError::SingleError(m)) => m,
        Ok(()) => panic!("expected a rejection"),
    }
}

#[test]
fn convert_with_images_is_admitted() {
    let args = args_for(Command::Convert { format: Some(String::from("png")) }, vec!["a.png"], None);
    assert_eq!(args.command.run(&args), Ok(()));
}

#[test]
fn no_images_is_rejected() {
    let args = args_for(Command::Convert { format: None }, vec![], None);
    assert_eq!(rejection(args.command.run(&args)), "no input images");
}

#[test]
fn completions_needs_no_images() {
    let args = args_for(Command::Completions, vec![], None);
    assert_eq!(args.command.run(&args), Ok(()));
}

#[test]
fn resize_to_zero_is_rejected() {
    let args = args_for(Command::Resize { width: 0, height: 32 }, vec!["a.png"], None);
    assert_eq!(rejection(args.command.run(&args)), "zero target dimensions");

    let args = args_for(Command::Resize { width: 32, height: 0 }, vec!["a.png"], None);
    assert_eq!(rejection(args.command.run(&args)), "zero target dimensions");
}

#[test]
fn resize_to_nonzero_is_admitted() {
    let args = args_for(Command::Resize { width: 32, height: 32 }, vec!["a.png"], None);
    assert_eq!(args.command.run(&args), Ok(()));
}

#[test]
fn batch_without_output_is_rejected() {
    let args = args_for(Command::Batch, vec!["a.png", "b.png"], None);
    assert_eq!(
        rejection(args.command.run(&args)),
        "batch conversion needs an output directory"
    );
}

#[test]
fn batch_with_output_is_admitted() {
    let args = args_for(Command::Batch, vec!["a.png", "b.png"], Some("/out"));
    assert_eq!(args.command.run(&args), Ok(()));
}

#[test]
fn missing_images_is_reported_before_zero_dimensions() {
    let args = args_for(Command::Resize { width: 0, height: 0 }, vec![], None);
    assert_eq!(rejection(args.command.run(&args)), "no input images");
}

#[test]
fn info_recolor_transparentize_are_admitted() {
    for command in [Command::Info, Command::Recolor, Command::Transparentize] {
        let args = args_for(command, vec!["a.png"], None);
        assert_eq!(args.command.run(&args), Ok(()));
    }
}
