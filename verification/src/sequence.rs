use crate::text::{
    append_decimal, append_four_digit_decimal, decimal, digit_char, digits_value, lemma_decimal_len,
    lemma_zero_padded_decimal_value, zero_padded_decimal,
};
use vstd::prelude::*;
use vstd::string::*;

verus! {

/// Whether `c` is one of the ASCII digits `0` to `9`.
pub open spec fn is_ascii_digit(c: char) -> bool {
    '0' <= c && c <= '9'
}

/// The text after an optional leading `+`.
pub open spec fn unsigned_digits(text: Seq<char>) -> Seq<char> {
    if text.len() > 0 && text[0] == '+' {
        text.skip(1)
    } else {
        text
    }
}

/// Whether every character of `text` is an ASCII digit.
pub open spec fn all_ascii_digits(text: Seq<char>) -> bool {
    forall|i: int| 0 <= i < text.len() ==> is_ascii_digit(text[i])
}

/// What `str::parse::<u32>` yields: an optional `+` followed by at least one ASCII digit,
/// denoting a number that fits in 32 bits.
pub open spec fn parsed_u32(text: Seq<char>) -> Option<u32> {
    let digits = unsigned_digits(text);
    if digits.len() > 0 && all_ascii_digits(digits) && digits_value(digits) <= u32::MAX {
        Some(digits_value(digits) as u32)
    } else {
        None
    }
}

/// What the value given to `option` stands for: a positive integer, or the complaint about it.
pub open spec fn positive_option_value(value: Option<Seq<char>>, option: Seq<char>) -> Result<
    u32,
    Seq<char>,
> {
    match value {
        None => Err(option + " requires a value"@),
        Some(text) => match parsed_u32(text) {
            Some(number) => if number > 0 {
                Ok(number)
            } else {
                Err(option + " must be a positive integer"@)
            },
            None => Err(option + " must be a positive integer"@),
        },
    }
}

/// The argument after position `index`, if there is one.
pub open spec fn following_argument(arguments: Seq<Seq<char>>, index: int) -> Option<Seq<char>> {
    if index + 1 < arguments.len() {
        Some(arguments[index + 1])
    } else {
        None
    }
}

/// Reads `arguments` from position `index` on, given the frame rate, frame count and output
/// directory found before it: `--fps` and `--num-frames` each take the next argument as their
/// value and may appear once, any other argument that starts with `-` is refused, and one
/// further argument names the output directory.
pub open spec fn scan_arguments(
    arguments: Seq<Seq<char>>,
    index: int,
    frames_per_second: Option<u32>,
    frame_count: Option<u32>,
    output_directory: Option<Seq<char>>,
) -> Result<(Option<u32>, Option<u32>, Option<Seq<char>>), Seq<char>>
    decreases arguments.len() - index,
{
    if index < 0 || index >= arguments.len() {
        Ok((frames_per_second, frame_count, output_directory))
    } else if arguments[index] == "--fps"@ {
        if frames_per_second is Some {
            Err("--fps may only be supplied once"@)
        } else {
            match positive_option_value(following_argument(arguments, index), "--fps"@) {
                Ok(value) => if index + 1 < arguments.len() {
                    scan_arguments(
                        arguments,
                        index + 2,
                        Some(value),
                        frame_count,
                        output_directory,
                    )
                } else {
                    Err("--fps requires a value"@)
                },
                Err(message) => Err(message),
            }
        }
    } else if arguments[index] == "--num-frames"@ {
        if frame_count is Some {
            Err("--num-frames may only be supplied once"@)
        } else {
            match positive_option_value(following_argument(arguments, index), "--num-frames"@) {
                Ok(value) => if index + 1 < arguments.len() {
                    scan_arguments(
                        arguments,
                        index + 2,
                        frames_per_second,
                        Some(value),
                        output_directory,
                    )
                } else {
                    Err("--num-frames requires a value"@)
                },
                Err(message) => Err(message),
            }
        }
    } else if arguments[index].len() > 0 && arguments[index][0] == '-' {
        Err("unknown option: "@ + arguments[index])
    } else if output_directory is None {
        scan_arguments(arguments, index + 1, frames_per_second, frame_count, Some(arguments[index]))
    } else {
        Err("only one output directory may be supplied"@)
    }
}

/// The options that a frame sequence's command line selects: the frame rate, the frame count
/// and the output directory, or the complaint about the command line.
pub open spec fn parsed_options(arguments: Seq<Seq<char>>, default_output_directory: Seq<char>) -> Result<
    (u32, u32, Seq<char>),
    Seq<char>,
> {
    match scan_arguments(arguments, 0, None, None, None) {
        Err(message) => Err(message),
        Ok((frames_per_second, frame_count, output_directory)) => match frames_per_second {
            None => Err("required option --fps is missing"@),
            Some(rate) => match frame_count {
                None => Err("required option --num-frames is missing"@),
                Some(count) => Ok(
                    (
                        rate,
                        count,
                        match output_directory {
                            Some(directory) => directory,
                            None => default_output_directory,
                        },
                    ),
                ),
            },
        },
    }
}

/// The views of a list of command-line arguments.
pub open spec fn argument_views(arguments: Seq<String>) -> Seq<Seq<char>> {
    arguments.map_values(|argument: String| argument@)
}

/// How a frame sequence is rendered and where its frames go.
#[derive(Debug, PartialEq, Eq)]
pub struct Options {
    pub frames_per_second: u32,
    pub frame_count: u32,
    pub output_directory: String,
}

proof fn lemma_digits_value_grows(digits: Seq<char>, count: int)
    requires
        0 <= count <= digits.len(),
        forall|i: int| 0 <= i < digits.len() ==> is_ascii_digit(digits[i]),
    ensures
        digits_value(digits.take(count)) <= digits_value(digits),
    decreases digits.len() - count,
{
    if count < digits.len() {
        lemma_digits_value_grows(digits, count + 1);
        assert(digits.take(count + 1).drop_last() =~= digits.take(count));
    } else {
        assert(digits.take(count) =~= digits);
    }
}

/// Reads a decimal number the way `str::parse::<u32>` does.
pub fn parse_u32(text: &str) -> (number: Option<u32>)
    ensures
        number == parsed_u32(text@),
{
    let length = text.unicode_len();
    let start: usize = if length > 0 && text.get_char(0) == '+' {
        1
    } else {
        0
    };
    let ghost digits = unsigned_digits(text@);
    assert(digits =~= text@.skip(start as int));
    if start == length {
        return None;
    }
    let mut value: u64 = 0;
    let mut index: usize = start;
    while index < length
        invariant
            length == text@.len(),
            start <= index <= length,
            digits =~= text@.skip(start as int),
            digits == unsigned_digits(text@),
            value == digits_value(digits.take(index - start)),
            value <= u32::MAX,
            forall|i: int| 0 <= i < index - start ==> is_ascii_digit(digits[i]),
        decreases length - index,
    {
        let c = text.get_char(index);
        assert(digits[index - start] == c);
        if !('0' <= c && c <= '9') {
            assert(!is_ascii_digit(digits[index - start]));
            assert(!all_ascii_digits(digits));
            return None;
        }
        let digit = (c as u32 - 48) as u64;
        let next = value * 10 + digit;
        assert(digits.take(index - start + 1).drop_last() =~= digits.take(index - start));
        assert(digits.take(index - start + 1).last() == c);
        assert(digits_value(digits.take(index - start + 1)) == next);
        if next > 0xffff_ffff {
            proof {
                if forall|i: int| 0 <= i < digits.len() ==> is_ascii_digit(digits[i]) {
                    lemma_digits_value_grows(digits, index - start + 1);
                }
            }
            return None;
        }
        value = next;
        index += 1;
    }
    assert(digits.take(index - start) =~= digits);
    Some(value as u32)
}

fn text_with_suffix(prefix: &str, suffix: &str) -> (text: String)
    ensures
        text@ == prefix@ + suffix@,
{
    let mut text = String::from_str(prefix);
    text.append(suffix);
    text
}

/// Reads the value of `option` as a positive integer.
pub fn parse_nonzero_u32(value: Option<&str>, option: &str) -> (number: Result<u32, String>)
    ensures
        match positive_option_value(
            match value {
                Some(text) => Some(text@),
                None => None,
            },
            option@,
        ) {
            Ok(expected) => number == Ok::<u32, String>(expected),
            Err(expected) => number matches Err(message) && message@ == expected,
        },
{
    let text = match value {
        Some(text) => text,
        None => {
            return Err(text_with_suffix(option, " requires a value"));
        },
    };
    match parse_u32(text) {
        Some(number) => if number > 0 {
            Ok(number)
        } else {
            Err(text_with_suffix(option, " must be a positive integer"))
        },
        None => Err(text_with_suffix(option, " must be a positive integer")),
    }
}

/// Reads a frame sequence's command line.
pub fn parse_args(arguments: &Vec<String>, default_output_directory: &str) -> (options: Result<
    Options,
    String,
>)
    ensures
        match parsed_options(argument_views(arguments@), default_output_directory@) {
            Ok((rate, count, directory)) => options matches Ok(found) && found.frames_per_second
                == rate && found.frame_count == count && found.output_directory@ == directory,
            Err(expected) => options matches Err(message) && message@ == expected,
        },
        options matches Ok(found) ==> {
            &&& found.frames_per_second > 0
            &&& found.frame_count > 0
            &&& forall|j: int|
                0 <= j < arguments@.len() && starts_with_dash(#[trigger] arguments@[j]@)
                    ==> arguments@[j]@ == "--fps"@ || arguments@[j]@ == "--num-frames"@
            &&& found.output_directory@ == default_output_directory@ || (!starts_with_dash(
                found.output_directory@,
            ) && exists|j: int|
                0 <= j < arguments@.len() && #[trigger] arguments@[j]@ == found.output_directory@)
        },
{
    let ghost views = argument_views(arguments@);
    let fps_flag = String::from_str("--fps");
    let count_flag = String::from_str("--num-frames");
    let mut frames_per_second: Option<u32> = None;
    let mut frame_count: Option<u32> = None;
    let mut output_directory: Option<String> = None;
    let mut index: usize = 0;
    while index < arguments.len()
        invariant
            index <= arguments.len(),
            views == argument_views(arguments@),
            fps_flag@ == "--fps"@,
            count_flag@ == "--num-frames"@,
            scan_arguments(views, 0, None, None, None) == scan_arguments(
                views,
                index as int,
                frames_per_second,
                frame_count,
                match output_directory {
                    Some(directory) => Some(directory@),
                    None => None,
                },
            ),
        decreases arguments.len() - index,
    {
        let argument = &arguments[index];
        assert(views[index as int] == argument@);
        let next = if index + 1 < arguments.len() {
            assert(views[index + 1] == arguments@[index + 1]@);
            Some(arguments[index + 1].as_str())
        } else {
            None
        };
        if *argument == fps_flag {
            if frames_per_second.is_some() {
                return Err(String::from_str("--fps may only be supplied once"));
            }
            match parse_nonzero_u32(next, "--fps") {
                Ok(value) => {
                    frames_per_second = Some(value);
                    index += 2;
                },
                Err(message) => {
                    return Err(message);
                },
            }
        } else if *argument == count_flag {
            if frame_count.is_some() {
                return Err(String::from_str("--num-frames may only be supplied once"));
            }
            match parse_nonzero_u32(next, "--num-frames") {
                Ok(value) => {
                    frame_count = Some(value);
                    index += 2;
                },
                Err(message) => {
                    return Err(message);
                },
            }
        } else if argument.unicode_len() > 0 && argument.as_str().get_char(0) == '-' {
            return Err(text_with_suffix("unknown option: ", argument.as_str()));
        } else if output_directory.is_none() {
            output_directory = Some(argument.clone());
            index += 1;
        } else {
            return Err(String::from_str("only one output directory may be supplied"));
        }
    }
    let frames_per_second = match frames_per_second {
        Some(rate) => rate,
        None => {
            return Err(String::from_str("required option --fps is missing"));
        },
    };
    let frame_count = match frame_count {
        Some(count) => count,
        None => {
            return Err(String::from_str("required option --num-frames is missing"));
        },
    };
    let output_directory = match output_directory {
        Some(directory) => directory,
        None => String::from_str(default_output_directory),
    };
    proof {
        law_accepted_command_lines(views, default_output_directory@);
        let expected = parsed_options(views, default_output_directory@);
        assert(expected == Ok::<(u32, u32, Seq<char>), Seq<char>>(
            (frames_per_second, frame_count, output_directory@),
        ));
        assert forall|j: int|
            0 <= j < arguments@.len() && starts_with_dash(#[trigger] arguments@[j]@) implies arguments@[j]@
            == "--fps"@ || arguments@[j]@ == "--num-frames"@ by {
            assert(views[j] == arguments@[j]@);
        }
        if output_directory@ != default_output_directory@ {
            let j = choose|j: int| 0 <= j < views.len() && views[j] == output_directory@;
            assert(arguments@[j]@ == output_directory@);
        }
    }
    Ok(Options { frames_per_second, frame_count, output_directory })
}

/// A command-line complaint together with the command that it concerns.
#[derive(Debug)]
pub struct CliError {
    command_name: String,
    message: String,
}

/// What a command-line complaint reports: the complaint, then the command's usage.
pub open spec fn cli_error_message(command_name: Seq<char>, message: Seq<char>) -> Seq<char> {
    message + "\nusage: "@ + command_name + " --fps <FPS> --num-frames <COUNT> [OUTPUT_DIRECTORY]"@
}

impl CliError {
    pub closed spec fn spec_command_name(&self) -> Seq<char> {
        self.command_name@
    }

    pub closed spec fn spec_message(&self) -> Seq<char> {
        self.message@
    }

    pub fn new(command_name: &str, message: String) -> (error: Self)
        ensures
            error.spec_command_name() == command_name@,
            error.spec_message() == message@,
    {
        Self { command_name: String::from_str(command_name), message }
    }

    pub fn to_string(&self) -> (text: String)
        ensures
            text@ == cli_error_message(self.spec_command_name(), self.spec_message()),
    {
        let mut text = self.message.clone();
        text.append("\nusage: ");
        text.append(self.command_name.as_str());
        text.append(" --fps <FPS> --num-frames <COUNT> [OUTPUT_DIRECTORY]");
        text
    }
}

/// The file name of the frame with the given index: its number padded to four digits.
pub open spec fn frame_file_name_text(frame_index: u32) -> Seq<char> {
    "frame-"@ + zero_padded_decimal(frame_index as nat, 4) + ".png"@
}

/// Names the file that holds the frame with the given index.
pub fn frame_file_name(frame_index: u32) -> (name: String)
    ensures
        name@ == frame_file_name_text(frame_index),
        frame_index < 10000 ==> name@ == "frame-"@ + four_digits(frame_index as nat) + ".png"@,
{
    proof {
        law_frame_file_names_use_four_digits(frame_index);
    }
    let mut name = String::from_str("frame-");
    append_four_digit_decimal(&mut name, frame_index);
    name.append(".png");
    name
}

/// Distinct frames are written to distinct files.
pub proof fn law_frame_file_names_are_distinct(first: u32, second: u32)
    requires
        first != second,
    ensures
        frame_file_name_text(first) != frame_file_name_text(second),
{
    let prefix = "frame-"@;
    let suffix = ".png"@;
    let first_digits = zero_padded_decimal(first as nat, 4);
    let second_digits = zero_padded_decimal(second as nat, 4);
    if frame_file_name_text(first) == frame_file_name_text(second) {
        let name = frame_file_name_text(first);
        assert(name.subrange(prefix.len() as int, name.len() - suffix.len()) =~= first_digits);
        assert(frame_file_name_text(second).subrange(
            prefix.len() as int,
            name.len() - suffix.len(),
        ) =~= second_digits);
        lemma_zero_padded_decimal_value(first as nat, 4);
        lemma_zero_padded_decimal_value(second as nat, 4);
    }
}

/// The progress line printed once `completed` of `total` frames have been written.
pub open spec fn progress_message(completed: nat, total: nat) -> Seq<char> {
    "rendered "@ + decimal(completed) + "/"@ + decimal(total) + " frames"@
}

/// The progress line due after the frame with index `frame_index` is written: one after every
/// `frames_per_second` frames, that is after each second of animation.
pub fn frame_progress(frame_index: u32, frames_per_second: u32, frame_count: u32) -> (report:
    Option<String>)
    requires
        frames_per_second > 0,
        frame_index < frame_count,
    ensures
        (frame_index + 1) % (frames_per_second as int) == 0 ==> (report matches Some(line)
            && line@ == progress_message((frame_index + 1) as nat, frame_count as nat)),
        (frame_index + 1) % (frames_per_second as int) != 0 ==> report is None,
{
    let completed = frame_index + 1;
    if completed % frames_per_second != 0 {
        return None;
    }
    let mut line = String::from_str("rendered ");
    append_decimal(&mut line, completed as u64);
    line.append("/");
    append_decimal(&mut line, frame_count as u64);
    line.append(" frames");
    Some(line)
}

/// Whether `text` starts with `-`, as options do.
pub open spec fn starts_with_dash(text: Seq<char>) -> bool {
    text.len() > 0 && text[0] == '-'
}

proof fn lemma_parsed_number_has_no_dash(text: Seq<char>)
    requires
        parsed_u32(text) is Some,
    ensures
        !starts_with_dash(text),
{
    if text.len() > 0 && text[0] != '+' {
        assert(unsigned_digits(text) == text);
        assert(is_ascii_digit(text[0]));
    }
}

proof fn lemma_accepted_scan(
    arguments: Seq<Seq<char>>,
    index: int,
    frames_per_second: Option<u32>,
    frame_count: Option<u32>,
    output_directory: Option<Seq<char>>,
)
    requires
        0 <= index,
        scan_arguments(arguments, index, frames_per_second, frame_count, output_directory) is Ok,
    ensures
        ({
            let (rate, count, directory) = scan_arguments(
                arguments,
                index,
                frames_per_second,
                frame_count,
                output_directory,
            )->Ok_0;
            &&& forall|j: int|
                index <= j < arguments.len() && starts_with_dash(#[trigger] arguments[j])
                    ==> arguments[j] == "--fps"@ || arguments[j] == "--num-frames"@
            &&& directory == output_directory || (directory matches Some(chosen) && !starts_with_dash(
                chosen,
            ) && exists|j: int| index <= j < arguments.len() && #[trigger] arguments[j] == chosen)
            &&& (frames_per_second matches Some(given) ==> given > 0) ==> (rate matches Some(value)
                ==> value > 0)
            &&& (frame_count matches Some(given) ==> given > 0) ==> (count matches Some(value)
                ==> value > 0)
        }),
    decreases arguments.len() - index,
{
    if index < arguments.len() {
        let argument = arguments[index];
        if argument == "--fps"@ || argument == "--num-frames"@ {
            let value = arguments[index + 1];
            assert(following_argument(arguments, index) == Some(value));
            lemma_parsed_number_has_no_dash(value);
            if argument == "--fps"@ {
                let next = Some(parsed_u32(value).unwrap());
                lemma_accepted_scan(arguments, index + 2, next, frame_count, output_directory);
            } else {
                let next = Some(parsed_u32(value).unwrap());
                lemma_accepted_scan(arguments, index + 2, frames_per_second, next, output_directory);
            }
        } else if starts_with_dash(argument) {
        } else {
            lemma_accepted_scan(arguments, index + 1, frames_per_second, frame_count, Some(argument));
        }
    }
}

/// An accepted command line names only `--fps` and `--num-frames` among the arguments that
/// start with `-`, asks for at least one frame per second and one frame, and writes to the
/// default directory or to one of its arguments that is not an option.
pub proof fn law_accepted_command_lines(arguments: Seq<Seq<char>>, default_output_directory: Seq<char>)
    ensures
        parsed_options(arguments, default_output_directory) matches Ok((rate, count, directory))
            ==> {
            &&& rate > 0
            &&& count > 0
            &&& forall|j: int|
                0 <= j < arguments.len() && starts_with_dash(#[trigger] arguments[j])
                    ==> arguments[j] == "--fps"@ || arguments[j] == "--num-frames"@
            &&& directory == default_output_directory || (!starts_with_dash(directory) && exists|
                j: int,
            | 0 <= j < arguments.len() && #[trigger] arguments[j] == directory)
        },
{
    if scan_arguments(arguments, 0, None, None, None) is Ok {
        lemma_accepted_scan(arguments, 0, None, None, None);
    }
}

/// The four decimal digits of a number below ten thousand, thousands first.
pub open spec fn four_digits(value: nat) -> Seq<char> {
    seq![
        digit_char(value / 1000),
        digit_char((value / 100) % 10),
        digit_char((value / 10) % 10),
        digit_char(value % 10),
    ]
}

proof fn lemma_zero_padded_four_digits(value: nat)
    requires
        value < 10000,
    ensures
        zero_padded_decimal(value, 4) == four_digits(value),
{
    let v = value as int;
    vstd::arithmetic::div_mod::lemma_div_denominator(v, 10, 10);
    vstd::arithmetic::div_mod::lemma_div_denominator(v, 100, 10);
    assert(v / 10 / 10 == v / 100);
    assert(v / 100 / 10 == v / 1000);
    assert(decimal(value).len() >= 1);
    let zero = digit_char(0);
    if value < 10 {
        assert(v / 10 == 0 && v / 100 == 0 && v / 1000 == 0);
        assert(decimal(value) == seq![digit_char(value)]);
        assert(zero_padded_decimal(value, 4) =~= seq![zero, zero, zero, digit_char(value % 10)]);
    } else if value < 100 {
        assert(1 <= v / 10 < 10 && v / 100 == 0 && v / 1000 == 0);
        assert(decimal((value / 10) as nat) == seq![digit_char(value / 10)]);
        assert(decimal(value) =~= seq![digit_char(value / 10), digit_char(value % 10)]);
        assert(zero_padded_decimal(value, 4) =~= seq![
            zero,
            zero,
            digit_char((value / 10) % 10),
            digit_char(value % 10),
        ]);
    } else if value < 1000 {
        assert(10 <= v / 10 < 100 && 1 <= v / 100 < 10 && v / 1000 == 0);
        assert(decimal((value / 100) as nat) == seq![digit_char(value / 100)]);
        assert(decimal((value / 10) as nat) =~= seq![
            digit_char(value / 100),
            digit_char((value / 10) % 10),
        ]);
        assert(decimal(value) =~= seq![
            digit_char(value / 100),
            digit_char((value / 10) % 10),
            digit_char(value % 10),
        ]);
        assert(zero_padded_decimal(value, 4) =~= seq![
            zero,
            digit_char((value / 100) % 10),
            digit_char((value / 10) % 10),
            digit_char(value % 10),
        ]);
    } else {
        assert(100 <= v / 10 < 1000 && 10 <= v / 100 < 100 && 1 <= v / 1000 < 10);
        assert(decimal((value / 1000) as nat) == seq![digit_char(value / 1000)]);
        assert(decimal((value / 100) as nat) =~= seq![
            digit_char(value / 1000),
            digit_char((value / 100) % 10),
        ]);
        assert(decimal((value / 10) as nat) =~= seq![
            digit_char(value / 1000),
            digit_char((value / 100) % 10),
            digit_char((value / 10) % 10),
        ]);
        assert(decimal(value) =~= four_digits(value));
    }
}

/// Frames below ten thousand are named `frame-` and exactly four digits, the frame's number
/// padded with leading zeros, then `.png`; later frames use all the digits of their number.
pub proof fn law_frame_file_names_use_four_digits(frame_index: u32)
    ensures
        frame_index < 10000 ==> frame_file_name_text(frame_index) == "frame-"@ + four_digits(
            frame_index as nat,
        ) + ".png"@,
        frame_index >= 10000 ==> frame_file_name_text(frame_index) == "frame-"@ + decimal(
            frame_index as nat,
        ) + ".png"@,
{
    lemma_decimal_len(frame_index as nat);
    if frame_index < 10000 {
        lemma_zero_padded_four_digits(frame_index as nat);
    }
}

/// A command line that starts with an argument beginning with `-`, other than `--fps` and
/// `--num-frames`, is refused as naming that unknown option.
pub proof fn law_unknown_options_are_refused(
    arguments: Seq<Seq<char>>,
    default_output_directory: Seq<char>,
)
    requires
        arguments.len() > 0,
        starts_with_dash(arguments[0]),
        arguments[0] != "--fps"@,
        arguments[0] != "--num-frames"@,
    ensures
        parsed_options(arguments, default_output_directory) == Err::<(u32, u32, Seq<char>), Seq<char>>(
            "unknown option: "@ + arguments[0],
        ),
{
}

} // verus!
