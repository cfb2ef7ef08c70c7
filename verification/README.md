# Racing Pedal Overlay

A transparent, borderless, always-on-top HUD for sim racing. It shows a scrolling trace of
throttle, brake and clutch, the gear, the speed and the position of the wheel.

The logic is a verified library. The program around it owns the window, the devices and the
game's shared memory.

## Layout

- `src/` is the library, written in Verus.
  - `single`, `rounding`, `arithmetic`: single-precision numbers as bit patterns, and their
    operations, each proved to give the nearest number.
  - `text`: numbers as text.
  - `input`: axes, keys, and what they do to the pedals and the wheel.
  - `overlay`, `steady`: the state of the overlay, how samples and packets change it, and
    what holds of every state.
  - `names`, `telemetry`, `probe`, `log`, `run`: the game's mappings, the packets made of
    them, the loop that looks for the live one, its log, and a whole run of it.
  - `color`, `layout`, `widgets`, `frame`: colours, sizes, and what the widgets show.
- `app/` is the program: window, painting, gamepads, shared memory and the background thread.
- `tests/` runs the library on concrete values.

## Controls

| Input                     | Action                               |
|---------------------------|--------------------------------------|
| `D`                       | Toggle debug overlay                 |
| `[` / `]`                 | Shrink / grow the graph's window     |
| `Arrow Up / Down`         | Simulate throttle / brake            |
| `Space`                   | Simulate clutch                      |
| `Arrow L / R`             | Simulate steering                    |
| Drag anywhere             | Move the window                      |
| Hover bottom-right corner | Resize grip (activates after ~500ms) |

## Colours

Throttle is green, and yellow under traction control; brake is red, and orange under ABS;
clutch is blue. The gear turns from green over yellow to red as the engine nears the highest
speed that it was seen to reach. The wheel turns with the device, not with the game.
Without a game the gear shows a gray `N` and the speed a gray `0`; pedals and wheel still
follow the hardware and the keyboard.
