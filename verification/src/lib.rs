pub mod clock;
pub mod codec;
pub mod pomodoro;
pub mod text;
